use std::path::PathBuf;

use aw_export::dirs::{
    appname_for, config_filename, get_server_config_path, get_sync_dir, resolve_profile,
    sync_config_dir, DirError,
};

#[test]
fn resolve_profile_cli_wins_over_env_and_testing() {
    assert_eq!(resolve_profile(Some("research"), true, Some("testing")), "research");
}

#[test]
fn resolve_profile_env_wins_over_testing() {
    assert_eq!(resolve_profile(None, true, Some("research")), "research");
}

#[test]
fn resolve_profile_testing_alias_and_default() {
    assert_eq!(resolve_profile(None, true, None), "testing");
    assert_eq!(resolve_profile(None, false, None), "default");
    assert_eq!(resolve_profile(Some(""), false, Some("")), "default");
}

#[test]
fn resolve_profile_skips_an_empty_command_line() {
    assert_eq!(resolve_profile(Some(""), true, Some("research")), "research");
    assert_eq!(resolve_profile(Some(""), true, Some("")), "testing");
}

fn user_config_dir() -> Option<PathBuf> {
    Some(PathBuf::from("home").join("user").join(".config"))
}

#[test]
fn sync_config_dir_is_isolated_per_named_profile() {
    let default_dir = sync_config_dir(user_config_dir(), &appname_for("default")).unwrap();
    let testing_dir = sync_config_dir(user_config_dir(), &appname_for("testing")).unwrap();
    let research_dir = sync_config_dir(user_config_dir(), &appname_for("research")).unwrap();

    // default and testing share the bare root (legacy suffixes elsewhere)
    assert_eq!(default_dir, testing_dir);
    assert!(
        default_dir.ends_with("activitywatch/aw-sync")
            || default_dir.ends_with("activitywatch\\aw-sync"),
        "default/testing should stay under activitywatch/aw-sync, got {default_dir:?}"
    );

    assert_ne!(
        research_dir, default_dir,
        "research must not share prod's aw-sync config dir"
    );
    assert!(
        research_dir.ends_with("activitywatch-research/aw-sync")
            || research_dir.ends_with("activitywatch-research\\aw-sync"),
        "research should live under activitywatch-research/aw-sync, got {research_dir:?}"
    );
}

#[test]
fn joining_adds_one_component_for_each_name() {
    let base = user_config_dir().unwrap();
    let path = sync_config_dir(user_config_dir(), "activitywatch").unwrap();
    let components: Vec<_> = path.components().collect();
    assert_eq!(components.len(), base.components().count() + 2);
    assert!(path.starts_with(&base));
    assert_eq!(components[components.len() - 2].as_os_str(), "activitywatch");
    assert_eq!(components[components.len() - 1].as_os_str(), "aw-sync");
}

#[test]
fn sync_config_dir_needs_a_config_dir() {
    let err = sync_config_dir(None, "activitywatch").unwrap_err();
    assert_eq!(err, DirError::NoConfigDir);
    assert_eq!(err.message(), "Unable to read user config dir");
}

#[test]
fn server_config_filename_matches_aw_server_rule() {
    assert_eq!(config_filename("default"), "config.toml");
    assert_eq!(config_filename("testing"), "config-testing.toml");
    assert_eq!(config_filename("research"), "config-research.toml");
}

#[test]
fn server_config_path_honours_testing_bool_before_set_profile() {
    let testing = get_server_config_path(Ok(PathBuf::from("conf")), "default", true).unwrap();
    let production = get_server_config_path(Ok(PathBuf::from("conf")), "default", false).unwrap();
    assert!(
        testing.ends_with("config-testing.toml"),
        "testing should read config-testing.toml, got {testing:?}"
    );
    assert!(
        production.ends_with("config.toml"),
        "default should read config.toml, got {production:?}"
    );
}

#[test]
fn server_config_path_of_a_named_profile_ignores_the_testing_flag() {
    for testing in [false, true] {
        let path = get_server_config_path(Ok(PathBuf::from("conf")), "research", testing).unwrap();
        assert_eq!(path, PathBuf::from("conf").join("config-research.toml"));
    }
    assert_eq!(get_server_config_path(Err(()), "default", true), Err(()));
}

#[test]
fn sync_dir_is_the_one_named_or_in_the_home_directory() {
    let home = Some(PathBuf::from("home"));
    assert_eq!(
        get_sync_dir(Some("elsewhere".to_string()), home.clone()).unwrap(),
        PathBuf::from("elsewhere")
    );
    assert_eq!(get_sync_dir(Some(String::new()), home.clone()).unwrap(), PathBuf::new());
    assert_eq!(get_sync_dir(None, home).unwrap(), PathBuf::from("home").join("ActivityWatchSync"));
    let err = get_sync_dir(None, None).unwrap_err();
    assert_eq!(err, DirError::NoHomeDir);
    assert_eq!(err.message(), "Unable to read home_dir");
}

#[test]
fn names_of_one_component_have_dirs_of_their_own() {
    let mut names = vec!["activitywatch", "activitywatch-a", "activitywatch-a:b", "activitywatch-:"];
    if !std::path::is_separator('\\') {
        names.extend(["activitywatch-a\\b", "a\\b", "c:d", "\\"]);
    }
    let base = user_config_dir().unwrap();
    for (i, a) in names.iter().enumerate() {
        let dir = sync_config_dir(user_config_dir(), a).unwrap();
        assert!(dir.starts_with(&base));
        assert_eq!(dir.components().count(), base.components().count() + 2);
        for (j, b) in names.iter().enumerate() {
            let other = sync_config_dir(user_config_dir(), b).unwrap();
            assert_eq!(dir == other, i == j, "{a} {b}");
        }
    }
}
