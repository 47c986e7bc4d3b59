use session_dash::release::{
    confirmed, dirty_lines, next_version, parse_bump, plan_release, version_bumpable, Bump, ReleaseError,
    VersionError,
};

#[test]
fn bump_kinds() {
    assert_eq!(parse_bump(None), Some(Bump::Patch));
    assert_eq!(parse_bump(Some("minor")), Some(Bump::Minor));
    assert_eq!(parse_bump(Some("major")), Some(Bump::Major));
    assert_eq!(parse_bump(Some("huge")), None);
}

#[test]
fn next_versions() {
    assert_eq!(next_version("1.2.3", Bump::Patch).ok(), Some("1.2.4".to_string()));
    assert_eq!(next_version("1.2.3", Bump::Minor).ok(), Some("1.3.0".to_string()));
    assert_eq!(next_version("1.2.3", Bump::Major).ok(), Some("2.0.0".to_string()));
    assert_eq!(next_version("0.9.0.7", Bump::Patch).ok(), Some("0.9.1".to_string()));
}

#[test]
fn bad_version_segment_is_an_error() {
    assert!(matches!(next_version("1.x.3", Bump::Patch), Err(VersionError::InvalidSegment)));
    assert!(matches!(next_version("1.-2.3", Bump::Patch), Err(VersionError::InvalidSegment)));
    assert!(matches!(next_version("", Bump::Patch), Err(VersionError::InvalidSegment)));
}

#[test]
fn untracked_files_do_not_block() {
    let status = " M src/main.rs\n?? notes.txt\nA  Cargo.toml\n";
    assert_eq!(dirty_lines(status), vec![" M src/main.rs".to_string(), "A  Cargo.toml".to_string()]);
    assert!(dirty_lines("?? a\n?? b\n").is_empty());
    assert!(dirty_lines("").is_empty());
}

#[test]
fn only_n_declines() {
    assert!(!confirmed("n\n"));
    assert!(!confirmed("  N  "));
    assert!(confirmed("\n"));
    assert!(confirmed("y"));
    assert!(confirmed("no"));
}

#[test]
fn release_plans_from_the_manifest() {
    let manifest = "[package]\nname = \"demo\"\nversion = \"1.2.3\"\n\n[dependencies]\nserde = \"1\"\n";
    let plan = plan_release(manifest, Bump::Minor).ok().unwrap();
    assert_eq!(plan.current, "1.2.3");
    assert_eq!(plan.next, "1.3.0");
    assert!(plan.manifest.contains("version = \"1.3.0\""));
    assert!(!plan.manifest.contains("1.2.3"));
    assert!(plan.manifest.contains("name = \"demo\""));
    assert!(plan.manifest.contains("[dependencies]\nserde = \"1\""));

    assert!(matches!(plan_release("[package", Bump::Patch), Err(ReleaseError::ManifestUnreadable)));
    assert!(matches!(plan_release("[package]\nname = \"x\"\n", Bump::Patch), Err(ReleaseError::MissingVersion)));
    assert!(matches!(plan_release("[package]\nversion = 3\n", Bump::Patch), Err(ReleaseError::MissingVersion)));
    assert!(matches!(plan_release("[package]\nversion = \"1.x.0\"\n", Bump::Patch), Err(ReleaseError::InvalidSegment)));
    assert!(matches!(plan_release("[package]\nversion = \"1.2\"\n", Bump::Patch), Err(ReleaseError::Unbumpable)));

    assert!(version_bumpable("1.2.3", Bump::Patch));
    assert!(!version_bumpable("1.2", Bump::Patch));
    assert!(!version_bumpable("4294967295.0.0", Bump::Major));
    assert!(version_bumpable("4294967295.0.0", Bump::Minor));
    assert!(version_bumpable("x", Bump::Major));
}
