use panrelease::version::{parse_build, BumpLevel, SemVer, TargetVersion};

#[test]
fn parse_simple_post_release() {
    assert_eq!(
        Some(("build".to_string(), Some(12))),
        parse_build("build.r12")
    )
}

#[test]
fn parse_no_ver_post_release() {
    assert_eq!(Some(("build".to_string(), None)), parse_build("build"))
}

#[test]
fn parse_complex_post_release() {
    assert_eq!(
        Some(("feature-dev.rc".to_string(), Some(12))),
        parse_build("feature-dev.rc.r012")
    )
}

#[test]
fn parse_invalid_post_release() {
    assert_eq!(
        Some(("build.rc12".to_string(), None)),
        parse_build("build.rc12")
    )
}

#[test]
fn increment_patch() {
    assert_eq!(
        String::from("1.2.4"),
        BumpLevel::Patch
            .apply(&SemVer::parse("1.2.3").unwrap())
            .to_string()
    )
}

#[test]
fn increment_minor() {
    assert_eq!(
        String::from("1.3.0"),
        BumpLevel::Minor
            .apply(&SemVer::parse("1.2.3").unwrap())
            .to_string()
    )
}

#[test]
fn increment_major() {
    assert_eq!(
        String::from("2.0.0"),
        BumpLevel::Major
            .apply(&SemVer::parse("1.2.3").unwrap())
            .to_string()
    )
}

#[test]
fn increment_postrel() {
    assert_eq!(
        String::from("1.2.3+feat.r2"),
        BumpLevel::Post
            .apply(&SemVer::parse("1.2.3+feat.r1").unwrap())
            .to_string()
    )
}

#[test]
fn post_release_without_build_starts_the_default_chain() {
    assert_eq!(
        String::from("1.2.3+dev.r1"),
        BumpLevel::Post
            .apply(&SemVer::parse("1.2.3").unwrap())
            .to_string()
    )
}

#[test]
fn post_release_without_counter_starts_at_one() {
    assert_eq!(
        String::from("1.2.3+feat.r1"),
        BumpLevel::Post
            .apply(&SemVer::parse("1.2.3+feat").unwrap())
            .to_string()
    )
}

#[test]
fn bumps_drop_prerelease_and_build() {
    let v = SemVer::parse("1.2.3-alpha.1+meta").unwrap();
    assert_eq!("1.2.4", BumpLevel::Patch.apply(&v).to_string());
    assert_eq!("1.3.0", BumpLevel::Minor.apply(&v).to_string());
    assert_eq!("2.0.0", BumpLevel::Major.apply(&v).to_string());
}

#[test]
fn version_text_round_trips_through_parse() {
    for text in ["0.1.0", "1.2.3-rc.1", "1.2.3+b.7", "1.2.3-rc.1+b.7"] {
        assert_eq!(text, SemVer::parse(text).unwrap().to_string());
    }
}

#[test]
fn invalid_versions_are_rejected() {
    assert!(SemVer::parse("1.0").is_err());
    assert!(SemVer::parse("1.0.01").is_err());
    assert!(SemVer::parse("1.0.0-").is_err());
    assert!(SemVer::parse("not-a-version").is_err());
}

#[test]
fn target_version_reads_levels_and_absolute_versions() {
    assert!(matches!(
        TargetVersion::from_str("patch"),
        Ok(TargetVersion::Relative(BumpLevel::Patch))
    ));
    assert!(matches!(
        TargetVersion::from_str("post"),
        Ok(TargetVersion::Relative(BumpLevel::Post))
    ));
    match TargetVersion::from_str("4.5.6") {
        Ok(TargetVersion::Absolute(v)) => assert_eq!("4.5.6", v.to_string()),
        other => panic!("unexpected {:?}", other),
    }
    assert!(TargetVersion::from_str("bogus").is_err());
}

#[test]
fn target_version_apply_bumps_or_sets() {
    let cur = SemVer::parse("1.2.3").unwrap();
    let bumped = TargetVersion::from_str("minor").unwrap().apply(&cur);
    assert_eq!("1.3.0", bumped.to_string());
    let set = TargetVersion::from_str("9.9.9").unwrap().apply(&cur);
    assert_eq!("9.9.9", set.to_string());
}

#[test]
fn empty_build_info_has_no_reading() {
    assert_eq!(None, parse_build(""));
}
