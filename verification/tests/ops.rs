use reporocket::calendar::format_rfc3339;
use reporocket::ops::{
    artwork_candidates, executable_choice, find_artwork_path, has_free_name, launch_command,
    LaunchError, download_folder, download_target, executable_kind, executable_mode, extension_of,
    is_html_file, is_zip_file, load_library, log_error, sanitize_name, scan_executables,
    unique_app_name, MAX_ERROR_LOG,
};
use reporocket::state::{Platform, AppConfig, Config, ErrorEntry, ExecutableChoice, Paths};

#[test]
fn sanitize_replaces_illegal_path_chars() {
    assert_eq!(sanitize_name("Cool:Game?*"), "Cool_Game__");
    assert_eq!(sanitize_name("   ...  "), "Application");
}

#[test]
fn rfc3339_unix_epoch() {
    assert_eq!(format_rfc3339(0), "1970-01-01T00:00:00Z");
    assert_eq!(format_rfc3339(1_724_889_600), "2024-08-29T00:00:00Z");
}

#[test]
fn rfc3339_leap_day_and_year_end() {
    assert_eq!(format_rfc3339(951_782_400), "2000-02-29T00:00:00Z");
    assert_eq!(format_rfc3339(946_684_799), "1999-12-31T23:59:59Z");
    assert_eq!(format_rfc3339(4_107_542_400), "2100-03-01T00:00:00Z");
    assert_eq!(format_rfc3339(1_700_000_000), "2023-11-14T22:13:20Z");
}

#[test]
fn rfc3339_far_future_year_has_more_digits() {
    assert_eq!(format_rfc3339(253_402_300_800), "10000-01-01T00:00:00Z");
}

#[test]
fn sanitize_controls_slashes_and_dots() {
    assert_eq!(sanitize_name("a/b\\c"), "a_b_c");
    assert_eq!(sanitize_name("tab\there"), "tab_here");
    assert_eq!(sanitize_name("..hidden.."), "hidden");
    assert_eq!(sanitize_name(" . a . "), " a ");
    assert_eq!(sanitize_name(""), "Application");
    assert_eq!(sanitize_name("Über Game"), "Über Game");
}

#[test]
fn unique_names_count_up_from_two() {
    let existing: Vec<String> = vec!["Game".into(), "Game 2".into(), "Other".into()];
    assert_eq!(unique_app_name(&existing, "Fresh"), "Fresh");
    assert_eq!(unique_app_name(&existing, "Game"), "Game 3");
    assert_eq!(unique_app_name(&existing, "Other"), "Other 2");
    assert_eq!(unique_app_name(&existing, "Ga:me"), "Ga_me");
}

#[test]
fn zip_and_html_extensions() {
    assert!(is_zip_file("/tmp/app/Game.ZIP"));
    assert!(!is_zip_file("/tmp/app/.zip"));
    assert!(is_zip_file("/tmp/archive.zip/"));
    assert!(is_html_file("index.htm"));
    assert!(is_html_file("page.HTML"));
    assert!(!is_html_file("page.html.gz"));
    assert_eq!(extension_of("a/b.tar.gz"), Some("gz".to_string()));
    assert_eq!(extension_of("a/..hidden"), Some("hidden".to_string()));
    assert_eq!(extension_of("a/noext"), None);
    assert_eq!(extension_of("a/."), None);
    assert_eq!(extension_of("file."), Some(String::new()));
}

#[test]
fn executable_kinds() {
    let k = executable_kind("/apps/x/Game.EXE", false, Platform::OtherUnix);
    assert!(k.executable && !k.descend);
    let k = executable_kind("/apps/x/run.AppImage", false, Platform::OtherUnix);
    assert!(k.executable);
    let k = executable_kind("/apps/x/Game.app", true, Platform::OtherUnix);
    assert!(k.executable && !k.descend);
    let k = executable_kind("/apps/x/data", true, Platform::OtherUnix);
    assert!(!k.executable && k.descend);
    let k = executable_kind("/apps/x/readme.txt", false, Platform::OtherUnix);
    assert!(!k.executable && !k.descend);
    let c = executable_choice("/apps/x/start.sh", Platform::OtherUnix);
    assert_eq!(c.display, "start.sh");
    assert_eq!(c.path, "/apps/x/start.sh");
}

#[test]
fn executables_sorted_case_insensitively_and_stably() {
    let found = vec![
        ExecutableChoice { display: "b.exe".into(), path: "1".into() },
        ExecutableChoice { display: "A.exe".into(), path: "2".into() },
        ExecutableChoice { display: "a.exe".into(), path: "3".into() },
        ExecutableChoice { display: "C.sh".into(), path: "4".into() },
    ];
    let sorted = scan_executables(found);
    let paths: Vec<&str> = sorted.iter().map(|c| c.path.as_str()).collect();
    assert_eq!(paths, vec!["2", "3", "1", "4"]);
}

#[test]
fn library_sorted_with_configured_executables() {
    let mut config = Config::new();
    config.insert(
        "beta".to_string(),
        AppConfig { executable: Some("/x/beta.exe".into()), cloud_save_location: None },
    );
    let lib = load_library(vec!["beta".into(), "Alpha".into(), "gamma".into()], &config);
    let names: Vec<&str> = lib.iter().map(|e| e.name.as_str()).collect();
    assert_eq!(names, vec!["Alpha", "beta", "gamma"]);
    assert_eq!(lib[1].executable.as_deref(), Some("/x/beta.exe"));
    assert_eq!(lib[0].executable, None);
}

#[test]
fn error_log_keeps_newest_entries() {
    let mut errors: Vec<ErrorEntry> = Vec::new();
    for i in 0..MAX_ERROR_LOG + 5 {
        log_error(&mut errors, &format!("e{i}"), 0);
    }
    assert_eq!(errors.len(), MAX_ERROR_LOG);
    assert_eq!(errors[0].error, "e5");
    assert_eq!(errors.last().unwrap().error, format!("e{}", MAX_ERROR_LOG + 4));
    assert_eq!(errors.last().unwrap().timestamp, "1970-01-01T00:00:00Z");
}

#[test]
fn executable_mode_adds_execute_bits_only_when_missing() {
    assert_eq!(executable_mode(0o644), Some(0o755));
    assert_eq!(executable_mode(0o600), Some(0o755));
    assert_eq!(executable_mode(0o700), None);
    assert_eq!(executable_mode(0o1644), Some(0o1755));
}

#[test]
fn artwork_candidates_in_lookup_order() {
    let paths = Paths::from_root("/home/u/rr");
    let c = artwork_candidates(&paths, "Game");
    assert_eq!(c.len(), 6);
    assert_eq!(c[0], "/home/u/rr/saves/reporocket/artwork/Game.png");
    assert_eq!(c[2], "/home/u/rr/saves/reporocket/artwork/Game.jpeg");
    assert_eq!(c[5], "/home/u/rr/saves/reporocket/artwork/Game.bmp");
}

#[test]
fn artwork_is_the_first_candidate_that_is_a_file() {
    let paths = Paths::from_root("/data");
    let none = vec![false; 6];
    assert_eq!(find_artwork_path(&paths, "Game", &none), None);
    let some = vec![false, false, true, false, true, false];
    assert_eq!(
        find_artwork_path(&paths, "Game", &some),
        Some("/data/saves/reporocket/artwork/Game.jpeg".to_string())
    );
}

#[test]
fn launch_commands() {
    assert_eq!(launch_command(None, true, Platform::OtherUnix).err(), Some(LaunchError::NoExecutable));
    assert_eq!(launch_command(Some("/a/run.sh"), false, Platform::OtherUnix).err(), Some(LaunchError::Missing));
    let c = launch_command(Some("/apps/Tool/run.sh"), true, Platform::OtherUnix).ok().unwrap();
    assert_eq!(c.program, "/apps/Tool/run.sh");
    assert!(c.args.is_empty());
    assert_eq!(c.working_dir.as_deref(), Some("/apps/Tool"));
    let c = launch_command(Some("C:/apps/Tool/start.BAT"), true, Platform::Windows).ok().unwrap();
    assert_eq!(c.program, "cmd");
    assert_eq!(c.args, vec!["/C".to_string(), "C:/apps/Tool/start.BAT".to_string()]);
    assert_eq!(c.working_dir.as_deref(), Some("C:/apps/Tool"));
    let c = launch_command(Some("start.cmd"), true, Platform::OtherUnix).ok().unwrap();
    assert_eq!(c.program, "start.cmd");
    assert_eq!(c.working_dir.as_deref(), Some(""));
    let c = launch_command(Some("/Apps/Tool.app"), true, Platform::MacOs).ok().unwrap();
    assert_eq!(c.program, "open");
    assert_eq!(c.args, vec!["/Apps/Tool.app".to_string()]);
    assert_eq!(c.working_dir, None);
    let c = launch_command(Some("/Apps/Tool.APP"), true, Platform::MacOs).ok().unwrap();
    assert_eq!(c.program, "/Apps/Tool.APP");
    assert_eq!(c.working_dir.as_deref(), Some("/Apps"));
    let c = launch_command(Some("/"), true, Platform::OtherUnix).ok().unwrap();
    assert_eq!(c.working_dir.as_deref(), Some("."));
    let c = launch_command(Some("./bin//tool"), true, Platform::OtherUnix).ok().unwrap();
    assert_eq!(c.working_dir.as_deref(), Some("./bin"));
}

#[test]
fn free_names_are_found() {
    let existing: Vec<String> = vec!["Game".into(), "Game 2".into()];
    assert!(has_free_name(&existing, "Game"));
    assert!(has_free_name(&existing, "Other"));
}

#[test]
fn windows_paths_split_at_backslashes() {
    let c = launch_command(Some("C:\\games\\Tool\\app.exe"), true, Platform::Windows).ok().unwrap();
    assert_eq!(c.program, "C:\\games\\Tool\\app.exe");
    assert_eq!(c.working_dir.as_deref(), Some("C:/games/Tool"));
    let c = launch_command(Some("C:\\app.exe"), true, Platform::Windows).ok().unwrap();
    assert_eq!(c.working_dir.as_deref(), Some("C:/"));
    let c = launch_command(Some("D:\\x.y\\run.CMD"), true, Platform::Windows).ok().unwrap();
    assert_eq!(c.program, "cmd");
    assert_eq!(c.working_dir.as_deref(), Some("D:/x.y"));
    let choice = executable_choice("C:\\games\\Tool\\app.exe", Platform::Windows);
    assert_eq!(choice.display, "app.exe");
    assert_eq!(choice.path, "C:\\games\\Tool\\app.exe");
    assert!(executable_kind("C:\\games\\Tool.app", true, Platform::Windows).executable);
    assert!(!executable_kind("C:\\games.x\\data", true, Platform::Windows).executable);
    let plain = executable_choice("/a/b\\c.sh", Platform::OtherUnix);
    assert_eq!(plain.display, "b\\c.sh");
}

#[test]
fn downloads_stay_in_the_app_folder() {
    let paths = Paths::from_root("/data");
    assert_eq!(download_folder(&paths, "Tool"), "/data/applications/Tool/Tool");
    assert_eq!(download_target(&paths, "Tool", "https://x.com/dl/setup.exe"), "/data/applications/Tool/Tool/setup.exe");
    assert_eq!(
        download_target(&paths, "Tool", "https://x.com/dl/..%2F..%2Fevil.sh"),
        "/data/applications/Tool/Tool/.._.._evil.sh"
    );
    assert_eq!(download_target(&paths, "Tool", "https://x.com/dl/..%5Cx"), "/data/applications/Tool/Tool/.._x");
    assert_eq!(download_target(&paths, "Tool", "https://x.com/dl/.."), "/data/applications/Tool/Tool/download.bin");
    assert_eq!(download_target(&paths, "Tool", "https://x.com/C:evil"), "/data/applications/Tool/Tool/C_evil");
}
