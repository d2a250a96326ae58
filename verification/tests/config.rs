use sapphire::{
    brace_pair_string, is_valid__dir, migrate_location, rect_string, Config, OldConfig,
    OldConfigInstallation, Profile, RenameOutcome,
};

fn sample_config() -> Config {
    Config {
        current_profile: Some("one".to_string()),
        profiles: vec![
            Profile { name: "one".to_string(), gd_path: "/games/one".to_string() },
            Profile { name: "two".to_string(), gd_path: "/games/two".to_string() },
        ],
        default_developer: None,
        sdk_nightly: false,
    }
}

#[test]
fn tuple_strings() {
    assert_eq!(brace_pair_string(3, 4).as_str(), "{3, 4}");
    assert_eq!(rect_string(1, 2, 3, 4).as_str(), "{{1, 2}, {3, 4}}");
}

#[test]
fn migrate_strips_exe_and_selects_working() {
    let old = OldConfig {
        default_installation: 0,
        working_installation: Some(1),
        installations: Some(vec![
            OldConfigInstallation {
                path: "C:/gd".to_string(),
                executable: "GeometryDash.exe".to_string(),
            },
            OldConfigInstallation { path: "/mac/gd".to_string(), executable: "Game".to_string() },
        ]),
        default_developer: Some("dev".to_string()),
    };
    let c = old.migrate();
    assert_eq!(c.profiles.len(), 2);
    assert_eq!(c.profiles[0].name.as_str(), "GeometryDash");
    assert_eq!(c.profiles[0].gd_path.as_str(), "C:/gd");
    assert_eq!(c.profiles[1].name.as_str(), "Game");
    assert_eq!(c.current_profile.as_deref(), Some("Game"));
    assert_eq!(c.default_developer.as_deref(), Some("dev"));
    assert!(!c.sdk_nightly);
}

#[test]
fn migrate_with_no_installations_selects_nothing() {
    let old = OldConfig {
        default_installation: 0,
        working_installation: None,
        installations: None,
        default_developer: None,
    };
    let c = old.migrate();
    assert!(c.profiles.is_empty());
    assert!(c.current_profile.is_none());
}

#[test]
fn get_profile_finds_first_match() {
    let c = sample_config();
    assert_eq!(c.get_profile(Some("two")), Some(1));
    assert_eq!(c.get_profile(Some("missing")), None);
    assert_eq!(c.get_profile(None), None);
}

#[test]
fn rename_profile_outcomes() {
    let mut c = sample_config();
    assert!(matches!(
        c.rename_profile("missing", "three".to_string()),
        RenameOutcome::NoSuchProfile
    ));
    assert!(matches!(c.rename_profile("one", "two".to_string()), RenameOutcome::NameTaken));
    assert!(matches!(c.rename_profile("one", "three".to_string()), RenameOutcome::Renamed));
    assert_eq!(c.profiles[0].name.as_str(), "three");
    assert_eq!(c.profiles[0].gd_path.as_str(), "/games/one");
}

#[test]
fn every_location_is_accepted() {
    assert!(is_valid__dir("/anywhere"));
}

#[test]
fn windows_directory_gains_the_executable() {
    let path = vec!["C:".to_string(), "gd".to_string()];
    let (p, warn) = migrate_location(path, true, true, false);
    assert_eq!(p.last().map(|s| s.as_str()), Some("GeometryDash.exe"));
    assert_eq!(p.len(), 3);
    assert!(warn);
    let (_, warn2) = migrate_location(vec!["C:".to_string()], true, true, true);
    assert!(!warn2);
}

#[test]
fn bundle_inner_directory_is_cut_back() {
    let path = vec!["Apps".to_string(), "GD.app".to_string(), "Contents".to_string()];
    let (p, warn) = migrate_location(path, false, true, false);
    assert_eq!(p.len(), 2);
    assert_eq!(p.last().map(|s| s.as_str()), Some("GD.app"));
    assert!(!warn);
    let plain = vec!["somewhere".to_string()];
    let (q, _) = migrate_location(plain.clone(), false, false, false);
    assert_eq!(q, plain);
}
