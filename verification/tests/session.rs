use reporocket::session::{
    artwork_to_apply, artwork_url_at, choose_executable, choose_theme, cloud_save_plan,
    download_name, executable_label, finish_download, grid_dimensions, is_blank,
    move_artwork_page, open_repo, record_search_source, release_files, repo_subtitle,
    save_settings, select_release, selected_download, set_cloud_save, show_artwork_games,
    show_artwork_grids, show_releases, show_search_results, start_artwork_change, theme_at,
    CloudSave, DownloadName,
};
use reporocket::state::{
    AppState, ArtworkGame, ArtworkGrid, Config, DownloadOutcome, ExecutableChoice, FileOption,
    LibraryEntry, Provider, ReleaseOption, RepoItem, Settings,
};

fn file(n: &str) -> FileOption {
    FileOption { name: n.into(), url: format!("https://x/{n}") }
}

#[test]
fn download_selection() {
    let mut state = AppState::new(Settings::with_api_key(String::new()), Config::new());
    let (name, f) = selected_download(&state, 0, 0);
    assert_eq!(name, "Application");
    assert!(f.is_none());
    state.current_repo = Some(RepoItem {
        provider: Provider::GitHub,
        name: "Tool".into(),
        owner: "o".into(),
        description: String::new(),
        project_id: None,
        identifier: None,
    });
    state.releases = vec![ReleaseOption { title: "v1".into(), subtitle: String::new(), files: vec![file("a")] }];
    state.files = vec![file("x"), file("y")];
    let (name, f) = selected_download(&state, 0, 0);
    assert_eq!(name, "Tool");
    assert_eq!(f.unwrap().name, "a");
    let (_, f) = selected_download(&state, 0, 1);
    assert_eq!(f.unwrap().name, "y");
    let (_, f) = selected_download(&state, -1, 0);
    assert!(f.is_none());
    assert_eq!(release_files(&state.releases, 0).len(), 1);
    assert!(release_files(&state.releases, 3).is_empty());
    assert!(release_files(&state.releases, -2).is_empty());
}

#[test]
fn settings_follow_user_actions() {
    let mut s = Settings::with_api_key(String::new());
    assert!(!record_search_source(&mut s, Provider::GitHub));
    assert!(record_search_source(&mut s, Provider::GitLab));
    assert_eq!(s.repo_source, "GitLab");
    assert_eq!(s.provider_index(), Provider::GitLab.as_index());
    save_settings(&mut s, "k".into(), true, Some(2));
    assert_eq!(s.steamgriddb_api_key, "k");
    assert_eq!(s.fullscreen, "Fullscreen");
    assert_eq!(s.repo_source, "Internet Archive");
    save_settings(&mut s, "k".into(), false, None);
    assert_eq!(s.repo_source, "Internet Archive");
    assert!(!s.fullscreen_enabled());
}

#[test]
fn labels_shown_in_lists() {
    assert!(is_blank(" \t\n"));
    assert!(!is_blank(" a "));
    let r = RepoItem {
        provider: Provider::InternetArchive,
        name: "n".into(),
        owner: "someone".into(),
        description: String::new(),
        project_id: None,
        identifier: None,
    };
    assert_eq!(repo_subtitle(&r), "Internet Archive by someone");
    assert_eq!(
        executable_label(&LibraryEntry { name: "a".into(), executable: None }),
        "No executable selected"
    );
    let g = ArtworkGrid { id: 1, url: "u".into(), thumb: "t".into(), width: 920, height: 430, preview_path: None };
    assert_eq!(grid_dimensions(&g), "920 x 430");
    assert_eq!(artwork_url_at(&vec![g], 0, 0), Some("u".to_string()));
    let themes = vec!["Default Dark".to_string()];
    assert_eq!(theme_at(&themes, 0), Some("Default Dark".to_string()));
    assert_eq!(theme_at(&themes, 1), None);
}

fn fresh_state() -> AppState {
    AppState::new(Settings::with_api_key(String::new()), Config::new())
}

fn repo_named(name: &str) -> RepoItem {
    RepoItem {
        provider: Provider::GitLab,
        name: name.into(),
        owner: "o".into(),
        description: String::new(),
        project_id: Some(7),
        identifier: None,
    }
}

fn grid(id: u32) -> ArtworkGrid {
    ArtworkGrid {
        id,
        url: format!("https://img/{id}.png"),
        thumb: String::new(),
        width: 920,
        height: 430,
        preview_path: None,
    }
}

#[test]
fn searching_and_opening_results() {
    let mut state = fresh_state();
    assert!(show_search_results(&mut state, Provider::GitLab, vec![repo_named("a"), repo_named("b")]));
    assert_eq!(state.settings.repo_source, "GitLab");
    assert_eq!(state.repos.len(), 2);
    assert!(!show_search_results(&mut state, Provider::GitLab, vec![repo_named("c")]));
    assert_eq!(state.repos[0].name, "c");
    assert!(open_repo(&mut state, 1).is_none());
    assert!(state.current_repo.is_none());
    assert_eq!(open_repo(&mut state, 0).unwrap().name, "c");
    assert_eq!(state.current_repo.as_ref().unwrap().name, "c");
    state.files = vec![file("old")];
    show_releases(&mut state, vec![ReleaseOption { title: "v2".into(), subtitle: String::new(), files: vec![file("z")] }]);
    assert!(state.files.is_empty());
    select_release(&mut state, 0);
    assert_eq!(state.files[0].name, "z");
    select_release(&mut state, 5);
    assert!(state.files.is_empty());
}

#[test]
fn download_folders_never_clash() {
    let existing: Vec<String> = vec!["Game".into(), "Game 2".into()];
    match download_name(&existing, "Fresh/Tool") {
        DownloadName::Start(name) => assert_eq!(name, "Fresh_Tool"),
        other => panic!("unexpected {other:?}"),
    }
    match download_name(&existing, " Game ") {
        DownloadName::Rename { original, suggestion } => {
            assert_eq!(original, "Game");
            assert_eq!(suggestion, "Game 3");
        }
        other => panic!("unexpected {other:?}"),
    }
}

#[test]
fn finished_downloads_offer_executables() {
    let mut state = fresh_state();
    let page = DownloadOutcome { app_name: "Site".into(), file_name: "index.html".into(), executables: vec![], opened_html: true };
    assert!(!finish_download(&mut state, page));
    assert!(state.current_app_name.is_none());
    let app = DownloadOutcome {
        app_name: "Tool".into(),
        file_name: "tool.zip".into(),
        executables: vec![ExecutableChoice { display: "run.sh".into(), path: "/a/run.sh".into() }],
        opened_html: false,
    };
    assert!(finish_download(&mut state, app));
    assert_eq!(state.current_app_name.as_deref(), Some("Tool"));
    assert_eq!(choose_executable(&mut state, 3), None);
    assert_eq!(choose_executable(&mut state, 0), Some("Tool".to_string()));
    assert_eq!(state.config.get("Tool").unwrap().executable.as_deref(), Some("/a/run.sh"));
}

#[test]
fn artwork_browsing() {
    let mut state = fresh_state();
    state.library = vec![LibraryEntry { name: "Tool".into(), executable: None }];
    state.artwork_page = 3;
    assert_eq!(start_artwork_change(&mut state, 0), Some("Tool".to_string()));
    assert_eq!(state.artwork_page, 0);
    show_artwork_games(&mut state, vec![ArtworkGame { id: 1, name: "Tool".into(), subtitle: "verified".into() }]);
    assert_eq!(state.artwork_games.len(), 1);
    show_artwork_grids(&mut state, (0..30).map(grid).collect());
    assert_eq!(move_artwork_page(&mut state, 1), 1);
    assert_eq!(move_artwork_page(&mut state, 1), 2);
    assert_eq!(move_artwork_page(&mut state, 1), 2);
    assert_eq!(move_artwork_page(&mut state, -1), 1);
    assert_eq!(
        artwork_to_apply(&state, 2),
        Some(("Tool".to_string(), "https://img/14.png".to_string()))
    );
    assert_eq!(artwork_to_apply(&state, 20), None);
    assert_eq!(start_artwork_change(&mut state, 4), None);
    assert!(state.current_app_name.is_none());
    assert_eq!(artwork_to_apply(&state, 0), None);
}

#[test]
fn cloud_saves_and_themes() {
    let mut state = fresh_state();
    state.library = vec![LibraryEntry { name: "Tool".into(), executable: None }];
    assert!(matches!(cloud_save_plan(&state, 1), CloudSave::NoApp));
    assert!(matches!(cloud_save_plan(&state, 0), CloudSave::NotConfigured(ref a) if a == "Tool"));
    assert_eq!(set_cloud_save(&mut state, 0, "/saves/tool".into()), Some("Tool".to_string()));
    match cloud_save_plan(&state, 0) {
        CloudSave::Sync { app, folder } => {
            assert_eq!(app, "Tool");
            assert_eq!(folder, "/saves/tool");
        }
        other => panic!("unexpected {other:?}"),
    }
    state.themes = vec!["Default Dark".into(), "Default Light".into()];
    assert!(choose_theme(&mut state, 1));
    assert_eq!(state.settings.theme, "Default Light");
    assert!(!choose_theme(&mut state, 2));
    assert_eq!(state.settings.theme, "Default Light");
}
