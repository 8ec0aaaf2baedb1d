use reporocket::state::{
    ensure_inside, join_path, Platform, steamgriddb_key, AppConfig, Config, PathError, Paths, Provider,
    Settings,
};

#[test]
fn providers_round_trip() {
    for p in [Provider::GitHub, Provider::GitLab, Provider::InternetArchive] {
        assert_eq!(Provider::from_index(p.as_index()), p);
        assert_eq!(Provider::from_label(p.as_str()), p);
    }
    assert_eq!(Provider::from_index(7), Provider::GitHub);
    assert_eq!(Provider::from_index(-1), Provider::GitHub);
    assert_eq!(Provider::from_label("gitlab"), Provider::GitHub);
    assert_eq!(Provider::InternetArchive.as_str(), "Internet Archive");
}

#[test]
fn settings_window_mode_and_provider() {
    let mut s = Settings::with_api_key(String::new());
    assert_eq!(s.theme, "Default Dark");
    assert!(!s.fullscreen_enabled());
    s.set_fullscreen_enabled(true);
    assert_eq!(s.fullscreen, "Fullscreen");
    assert!(s.fullscreen_enabled());
    s.fullscreen = "FULLSCREEN".into();
    assert!(s.fullscreen_enabled());
    assert_eq!(s.provider_index(), 0);
    s.repo_source = "Internet Archive".into();
    assert_eq!(s.provider_index(), 2);
}

#[test]
fn api_key_from_settings_or_environment() {
    let mut s = Settings::with_api_key("  key1 ".into());
    assert_eq!(s.steamgriddb_key(), Some("key1".to_string()));
    assert_eq!(steamgriddb_key(&s, Some("env")), Some("key1".to_string()));
    s.steamgriddb_api_key = "   ".into();
    assert_eq!(s.steamgriddb_key(), None);
    assert_eq!(steamgriddb_key(&s, Some(" env ")), Some("env".to_string()));
    assert_eq!(steamgriddb_key(&s, Some(" ")), None);
    assert_eq!(steamgriddb_key(&s, None), None);
}

#[test]
fn config_reads_back_what_was_written() {
    let mut c = Config::new();
    assert!(c.get("a").is_none());
    c.set_executable("a".into(), "/a.exe".into());
    c.set_cloud_save_location("a".into(), "/saves/a".into());
    c.set_cloud_save_location("b".into(), "/saves/b".into());
    let a = c.get("a").unwrap();
    assert_eq!(a.executable.as_deref(), Some("/a.exe"));
    assert_eq!(a.cloud_save_location.as_deref(), Some("/saves/a"));
    assert_eq!(c.get("b").unwrap().executable, None);
    c.insert("a".into(), AppConfig::empty());
    assert_eq!(c.get("a").unwrap().executable, None);
    c.remove("a");
    assert!(c.get("a").is_none());
    assert!(c.get("b").is_some());
    assert_eq!(c.entries().len(), 1);
}

#[test]
fn folder_layout_under_root() {
    let p = Paths::from_root("/home/u/rr");
    assert_eq!(p.applications, "/home/u/rr/applications");
    assert_eq!(p.themes, "/home/u/rr/themes");
    assert_eq!(p.rr_saves, "/home/u/rr/saves/reporocket");
    assert_eq!(p.artwork, "/home/u/rr/saves/reporocket/artwork");
    assert_eq!(p.cache, "/home/u/rr/saves/reporocket/cache");
    assert_eq!(p.settings, "/home/u/rr/saves/reporocket/settings.json");
    assert_eq!(p.config, "/home/u/rr/saves/reporocket/config.json");
    assert_eq!(p.errors, "/home/u/rr/saves/reporocket/errorlogs.json");
    assert_eq!(p.app_dir("Game"), "/home/u/rr/applications/Game");
    assert_eq!(p.saves_dir("Game"), "/home/u/rr/saves/Game");
    assert_eq!(join_path("/a/", "b"), "/a/b");
    assert_eq!(join_path("/a", "/b"), "/b");
    assert_eq!(join_path("", "b"), "b");
}

#[test]
fn inside_checks_whole_components() {
    assert_eq!(ensure_inside("/a/b/c", "/a/b", Platform::OtherUnix), Ok(()));
    assert_eq!(ensure_inside("/a/b", "/a/b/", Platform::OtherUnix), Ok(()));
    assert_eq!(ensure_inside("/a/./b//c", "/a/b", Platform::OtherUnix), Ok(()));
    assert_eq!(ensure_inside("/a/bc", "/a/b", Platform::OtherUnix), Err(PathError::OutsideRoot));
    assert_eq!(ensure_inside("/a", "/a/b", Platform::OtherUnix), Err(PathError::OutsideRoot));
    assert_eq!(ensure_inside("a/b", "/a", Platform::OtherUnix), Err(PathError::OutsideRoot));
    assert_eq!(ensure_inside("./a", ".", Platform::OtherUnix), Ok(()));
    assert_eq!(ensure_inside("/x", "/x", Platform::OtherUnix), Ok(()));
}

#[test]
fn windows_paths_inside_their_root() {
    assert_eq!(ensure_inside("\\\\?\\C:\\rr\\applications\\Game", "\\\\?\\C:\\rr\\applications", Platform::Windows), Ok(()));
    assert_eq!(ensure_inside("C:\\rr\\other", "C:\\rr\\applications", Platform::Windows), Err(PathError::OutsideRoot));
    assert_eq!(ensure_inside("/rr/app\\x", "/rr/app", Platform::OtherUnix), Err(PathError::OutsideRoot));
}
