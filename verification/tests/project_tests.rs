use panrelease::changelog::updated_changelog;
use panrelease::git::{commit_flag, is_clean_status, render_tag_template, tag_args};
use panrelease::parser::xml::value::{
    NegativeInteger, NonNegativeInteger, NonPositiveInteger, NormalizedString, PositiveInteger,
};
use panrelease::parser::xml::xdmerror::{Error, ErrorKind};
use panrelease::project::config::{
    default_main, default_tag_template, default_vcs_config, GitConfig, PackageManager,
    PanProjectConfig, ProjectHooks, ProjectModule, VcsConfig,
};
use panrelease::utils::{get_range, TextSpan};

fn module(main: bool) -> ProjectModule {
    ProjectModule {
        path: String::from("."),
        main,
        package_manager: PackageManager::Npm,
        hooks: ProjectHooks::default(),
    }
}

#[test]
fn detect_prefers_cargo_then_maven_then_npm() {
    assert_eq!(
        Some(PackageManager::Cargo),
        PackageManager::detect(true, true, true)
    );
    assert_eq!(
        Some(PackageManager::Maven),
        PackageManager::detect(false, true, true)
    );
    assert_eq!(
        Some(PackageManager::Npm),
        PackageManager::detect(false, false, true)
    );
    assert_eq!(None, PackageManager::detect(false, false, false));
}

#[test]
fn manifest_files_match_the_managers() {
    assert_eq!("Cargo.toml", PackageManager::Cargo.manifest_file());
    assert_eq!("pom.xml", PackageManager::Maven.manifest_file());
    assert_eq!("package.json", PackageManager::Npm.manifest_file());
}

#[test]
fn defaults_are_the_documented_ones() {
    assert_eq!("{{version}}", default_tag_template());
    assert!(!default_main());
    let VcsConfig::Git(g) = default_vcs_config();
    assert!(!g.force_sign);
    assert_eq!("{{version}}", g.tag_template);
}

#[test]
fn master_module_selection() {
    let none = PanProjectConfig::new(default_vcs_config(), vec![]);
    assert_eq!(Ok(None), none.extract_master_mod());

    let single = PanProjectConfig::new(
        default_vcs_config(),
        vec![(String::from("only"), module(false))],
    );
    assert_eq!(Ok(Some(0)), single.extract_master_mod());

    let multi_ok = PanProjectConfig::new(
        default_vcs_config(),
        vec![
            (String::from("a"), module(false)),
            (String::from("b"), module(true)),
            (String::from("c"), module(false)),
        ],
    );
    assert_eq!(Ok(Some(1)), multi_ok.extract_master_mod());

    let multi_none = PanProjectConfig::new(
        default_vcs_config(),
        vec![
            (String::from("a"), module(false)),
            (String::from("b"), module(false)),
        ],
    );
    assert_eq!(
        Err(String::from("No module marked as main")),
        multi_none.extract_master_mod()
    );

    let multi_two = PanProjectConfig::new(
        default_vcs_config(),
        vec![
            (String::from("a"), module(true)),
            (String::from("b"), module(true)),
        ],
    );
    assert_eq!(
        Err(String::from("Only one module must be marked as main")),
        multi_two.extract_master_mod()
    );
}

#[test]
fn module_validation_requires_the_manifest() {
    let m = module(false);
    assert!(PanProjectConfig::validate_module("app", &m, true).is_ok());
    let err = PanProjectConfig::validate_module("app", &m, false).unwrap_err();
    assert_eq!(
        "Error during app module validation. ./package.json is not a valid file",
        err
    );
}

#[test]
fn clean_status_accepts_blank_and_untracked_lines() {
    assert!(is_clean_status(""));
    assert!(is_clean_status("\n\n"));
    assert!(is_clean_status("?? newfile.txt\n?? other.txt\n"));
    assert!(!is_clean_status(" M changed.rs\n"));
    assert!(!is_clean_status("?? new.txt\nA  staged.rs\n"));
}

#[test]
fn tag_template_rendering_replaces_every_marker() {
    assert_eq!("1.2.3", render_tag_template("{{version}}", "1.2.3"));
    assert_eq!("v1.2.3", render_tag_template("v{{version}}", "1.2.3"));
    assert_eq!(
        "1.2.3-rel-1.2.3",
        render_tag_template("{{version}}-rel-{{version}}", "1.2.3")
    );
    assert_eq!("plain", render_tag_template("plain", "1.2.3"));
}

#[test]
fn commit_and_tag_arguments_follow_the_signing_switch() {
    assert_eq!("-m", commit_flag(false));
    assert_eq!("-Sm", commit_flag(true));
    assert_eq!(vec![String::from("tag"), String::from("v1")], tag_args(false, "v1"));
    assert_eq!(
        vec![
            String::from("tag"),
            String::from("-a"),
            String::from("v1"),
            String::from("-m"),
            String::from("v1"),
            String::from("-s"),
        ],
        tag_args(true, "v1")
    );
}

#[test]
fn git_config_default_is_unsigned_with_plain_template() {
    let g = GitConfig::default();
    assert!(!g.force_sign);
    assert_eq!("{{version}}", g.tag_template);
}

#[test]
fn span_range_is_the_stamped_range() {
    let span = TextSpan { start: 3, end: 9 };
    assert_eq!((3, 9), get_range(&span));
}

#[test]
fn integer_value_types_enforce_their_signs() {
    assert!(NonPositiveInteger::try_new(0).is_ok());
    assert!(NonPositiveInteger::try_new(-5).is_ok());
    assert!(NonPositiveInteger::try_new(1).is_err());
    assert!(PositiveInteger::try_new(1).is_ok());
    assert!(PositiveInteger::try_new(0).is_err());
    assert!(NonNegativeInteger::try_new(0).is_ok());
    assert!(NonNegativeInteger::try_new(-1).is_err());
    assert!(NegativeInteger::try_new(-1).is_ok());
    assert!(NegativeInteger::try_new(0).is_err());
    assert_eq!(7, PositiveInteger::try_new(7).unwrap().value());
    let err = PositiveInteger::try_new(0).unwrap_err();
    assert!(matches!(err.kind, ErrorKind::TypeError));
    assert_eq!("PositiveInteger must be greater than zero", err.message);
    assert_eq!(
        "NonPositiveInteger must be less than zero",
        NonPositiveInteger::try_new(2).unwrap_err().message
    );
    assert_eq!(
        "NonNegativeInteger must be zero or greater",
        NonNegativeInteger::try_new(-2).unwrap_err().message
    );
    assert_eq!(
        "NegativeInteger must be less than zero",
        NegativeInteger::try_new(2).unwrap_err().message
    );
}

#[test]
fn normalized_strings_reject_line_breaks_and_tabs() {
    assert_eq!(
        "plain text",
        NormalizedString::try_new("plain text").unwrap().as_text()
    );
    assert!(NormalizedString::try_new("a\nb").is_err());
    assert!(NormalizedString::try_new("a\tb").is_err());
    assert!(NormalizedString::try_new("a\rb").is_err());
    assert_eq!(
        "value is not a normalized string",
        NormalizedString::try_new("a\nb").unwrap_err().message
    );
    let err = Error::new(ErrorKind::Unknown, String::from("boom"));
    assert_eq!("boom", err.message);
}

#[test]
fn changelog_gains_headings_in_the_right_places() {
    // no release heading at all: the unreleased heading is appended first
    assert_eq!(
        "# Log\n## [Unreleased]\n\n## [1.0.0] 2024-01-01",
        updated_changelog("# Log", "1.0.0", "2024-01-01")
    );

    // an unreleased heading present: the release heading goes under it
    assert_eq!(
        "# Log\n## [Unreleased]\n\n## [1.1.0] 2024-02-02\n- a\n\n## [1.0.0] x\n- b",
        updated_changelog(
            "# Log\n## [Unreleased]\n- a\n\n## [1.0.0] x\n- b",
            "1.1.0",
            "2024-02-02"
        )
    );

    // release headings but no unreleased one: it is inserted before the first
    assert_eq!(
        "# Log\n\n## [Unreleased]\n\n## [2.0.0] d\n## [1.0.0] x",
        updated_changelog("# Log\n\n## [1.0.0] x", "2.0.0", "d")
    );
}
