use panrelease::package::gradle::GradlePackage;
use panrelease::package::maven::MavenPackage;
use panrelease::package::npm::NpmPackage;
use panrelease::version::SemVer;

#[test]
fn npm_reads_and_writes_the_version_field() {
    let text = r#"{
  "name": "demo",
  "version": "0.1.0",
  "description": "0.1.0 is also in here"
}"#;
    let mut pkg = NpmPackage::new(text);
    assert_eq!("0.1.0", pkg.extract_version().unwrap().to_string());
    pkg.set_version(&SemVer::parse("0.2.0").unwrap()).unwrap();
    assert_eq!(
        r#"{
  "name": "demo",
  "version": "0.2.0",
  "description": "0.1.0 is also in here"
}"#,
        pkg.to_string()
    );
}

#[test]
fn npm_missing_version_is_an_error() {
    let pkg = NpmPackage::new(r#"{"name":"demo"}"#);
    assert!(pkg.extract_version().is_err());
}

#[test]
fn maven_reads_and_writes_a_direct_version() {
    let text = "<project>\n  <version>1.0.0</version>\n</project>";
    let mut pkg = MavenPackage::new(text);
    assert_eq!("1.0.0", pkg.extract_version().unwrap().to_string());
    pkg.set_version(&SemVer::parse("1.0.1").unwrap()).unwrap();
    assert_eq!(
        "<project>\n  <version>1.0.1</version>\n</project>",
        pkg.to_string()
    );
}

#[test]
fn maven_follows_a_version_placeholder() {
    let text = "<project><properties><rev>2.0.0</rev></properties><version>${rev}</version></project>";
    let mut pkg = MavenPackage::new(text);
    assert_eq!("2.0.0", pkg.extract_version().unwrap().to_string());
    pkg.set_version(&SemVer::parse("2.0.1").unwrap()).unwrap();
    assert_eq!(
        "<project><properties><rev>2.0.1</rev></properties><version>${rev}</version></project>",
        pkg.to_string()
    );
}

#[test]
fn gradle_reads_and_writes_the_version_line() {
    let text = "group=com.example\nversion = 3.1.4\nkotlin.code.style=official\n";
    let mut pkg = GradlePackage::new(text);
    assert_eq!("3.1.4", pkg.extract_version().unwrap().to_string());
    pkg.set_version(&SemVer::parse("3.1.5").unwrap()).unwrap();
    assert_eq!(
        "group=com.example\nversion = 3.1.5\nkotlin.code.style=official\n",
        pkg.to_string()
    );
}

#[test]
fn gradle_ignores_version_in_the_middle_of_a_line() {
    let text = "myversion = 1.2.3\n";
    let pkg = GradlePackage::new(text);
    assert!(pkg.extract_version().is_err());
}

#[test]
fn gradle_without_version_line_leaves_text_untouched_on_set() {
    let text = "group=com.example\n";
    let mut pkg = GradlePackage::new(text);
    pkg.set_version(&SemVer::parse("1.0.0").unwrap()).unwrap();
    assert_eq!(text, pkg.to_string());
}
