//! The decisions the window makes on user actions: what is selected, which page is
//! shown, what the settings become.
use vstd::prelude::*;
use crate::net::next_artwork_page;
use crate::ops::{contains_name, has_free_numbered_name, is_unique_name_for, names_view, sanitize_name,
    sanitized, unique_app_name};
use crate::state::{AppConfig, AppState, ArtworkGame, ArtworkGrid, DownloadOutcome, ExecutableChoice,
    FileOption, LibraryEntry, Provider, ReleaseOption, RepoItem, Settings, clone_files,
    config_or_empty, provider_label, provider_index};
use crate::text::{chars_of, chars_equal_str, extend_str, push_decimal, string_from_chars,
    trim_ws, trim_chars, decimal, Trim};

verus! {

/// The file a download request names: file `file_index` of release `release_index`,
/// else file `file_index` of the shown file list.
pub open spec fn pick_file(state: AppState, release_index: int, file_index: int) -> Option<FileOption> {
    if release_index < 0 || file_index < 0 {
        None
    } else if release_index < state.releases@.len() && file_index < state.releases@[release_index].files@.len() {
        Some(state.releases@[release_index].files@[file_index])
    } else if file_index < state.files@.len() {
        Some(state.files@[file_index])
    } else {
        None
    }
}

/// The name of the current repository and the file a download request names.
pub fn selected_download(state: &AppState, release_index: i32, file_index: i32) -> (r: (String, Option<FileOption>))
    ensures
        r.0@ == (match state.current_repo {
            Some(repo) => repo.name@,
            None => "Application"@,
        }),
        r.1 == pick_file(*state, release_index as int, file_index as int),
{
    let repo_name = match &state.current_repo {
        Some(repo) => repo.name.clone(),
        None => "Application".to_owned(),
    };
    if release_index < 0 || file_index < 0 {
        return (repo_name, None);
    }
    let ri = release_index as usize;
    let fi = file_index as usize;
    if ri < state.releases.len() && fi < state.releases[ri].files.len() {
        return (repo_name, Some(state.releases[ri].files[fi].clone()));
    }
    if fi < state.files.len() {
        (repo_name, Some(state.files[fi].clone()))
    } else {
        (repo_name, None)
    }
}

/// The files of release `index`, none where there is no such release.
pub fn release_files(releases: &Vec<ReleaseOption>, index: i32) -> (r: Vec<FileOption>)
    ensures
        r@ == (if 0 <= index < releases@.len() { releases@[index as int].files@ } else { Seq::<FileOption>::empty() }),
{
    if index >= 0 && (index as usize) < releases.len() {
        clone_files(&releases[index as usize].files)
    } else {
        Vec::new()
    }
}

/// The name of library entry `index`.
pub fn library_name_at(library: &Vec<LibraryEntry>, index: i32) -> (r: Option<String>)
    ensures
        r == (if 0 <= index < library@.len() { Some(library@[index as int].name) } else { None::<String> }),
{
    if index >= 0 && (index as usize) < library.len() {
        Some(library[index as usize].name.clone())
    } else {
        None
    }
}

/// Library entry `index`.
pub fn library_entry_at(library: &Vec<LibraryEntry>, index: i32) -> (r: Option<LibraryEntry>)
    ensures
        r == (if 0 <= index < library@.len() { Some(library@[index as int]) } else { None::<LibraryEntry> }),
{
    if index >= 0 && (index as usize) < library.len() {
        Some(library[index as usize].clone())
    } else {
        None
    }
}

/// Executable choice `index`.
pub fn executable_choice_at(choices: &Vec<ExecutableChoice>, index: i32) -> (r: Option<ExecutableChoice>)
    ensures
        r == (if 0 <= index < choices@.len() { Some(choices@[index as int]) } else { None::<ExecutableChoice> }),
{
    if index >= 0 && (index as usize) < choices.len() {
        Some(choices[index as usize].clone())
    } else {
        None
    }
}

/// Search result `index`.
pub fn repo_at(repos: &Vec<RepoItem>, index: i32) -> (r: Option<RepoItem>)
    ensures
        r == (if 0 <= index < repos@.len() { Some(repos@[index as int]) } else { None::<RepoItem> }),
{
    if index >= 0 && (index as usize) < repos.len() {
        Some(repos[index as usize].clone())
    } else {
        None
    }
}

/// Theme name `index`.
pub fn theme_at(themes: &Vec<String>, index: i32) -> (r: Option<String>)
    ensures
        r == (if 0 <= index < themes@.len() { Some(themes@[index as int]) } else { None::<String> }),
{
    if index >= 0 && (index as usize) < themes.len() {
        Some(themes[index as usize].clone())
    } else {
        None
    }
}

/// The URL of grid `index` of the shown artwork page.
pub fn artwork_url_at(grids: &Vec<ArtworkGrid>, page: usize, index: i32) -> (r: Option<String>)
    requires
        index >= 0,
        page * 12 + index <= usize::MAX,
    ensures
        r == (if page * 12 + index < grids@.len() { Some(grids@[page * 12 + index].url) } else { None::<String> }),
{
    let i = page * 12 + index as usize;
    if i < grids.len() {
        Some(grids[i].url.clone())
    } else {
        None
    }
}

/// Whether a query has nothing but whitespace.
pub fn is_blank(query: &str) -> (r: bool)
    ensures
        r == (trim_ws(query@).len() == 0),
{
    trim_chars(&chars_of(query), Trim::Whitespace).len() == 0
}

/// Remembers the provider a search went to; whether the settings changed.
pub fn record_search_source(settings: &mut Settings, provider: Provider) -> (changed: bool)
    ensures
        final(settings).repo_source@ == provider_label(provider),
        changed == (old(settings).repo_source@ != provider_label(provider)),
        !changed ==> final(settings).repo_source == old(settings).repo_source,
        final(settings).theme == old(settings).theme,
        final(settings).fullscreen == old(settings).fullscreen,
        final(settings).steamgriddb_api_key == old(settings).steamgriddb_api_key,
{
    let label = provider.as_str();
    let current = chars_of(settings.repo_source.as_str());
    if chars_equal_str(&current, label) {
        false
    } else {
        settings.repo_source = label.to_owned();
        true
    }
}

/// The settings after "Save": the API key, the window mode and, where the window is
/// still open, the provider picked.
pub fn save_settings(settings: &mut Settings, api_key: String, fullscreen: bool, picked_provider: Option<i32>)
    ensures
        final(settings).steamgriddb_api_key == api_key,
        final(settings).fullscreen@ == (if fullscreen { "Fullscreen"@ } else { "Windowed"@ }),
        final(settings).repo_source@ == (match picked_provider {
            Some(i) => provider_label(if i == 1 {
                Provider::GitLab
            } else if i == 2 {
                Provider::InternetArchive
            } else {
                Provider::GitHub
            }),
            None => old(settings).repo_source@,
        }),
        final(settings).theme == old(settings).theme,
{
    settings.steamgriddb_api_key = api_key;
    settings.set_fullscreen_enabled(fullscreen);
    if let Some(i) = picked_provider {
        settings.repo_source = Provider::from_index(i).as_str().to_owned();
    }
}

/// The subtitle of a search result: "{provider} by {owner}".
pub fn repo_subtitle(repo: &RepoItem) -> (r: String)
    ensures
        r@ == provider_label(repo.provider) + " by "@ + repo.owner@,
{
    let mut v = chars_of(repo.provider.as_str());
    extend_str(&mut v, " by ");
    extend_str(&mut v, repo.owner.as_str());
    string_from_chars(&v)
}

/// What the library shows for an app's executable.
pub fn executable_label(entry: &LibraryEntry) -> (r: String)
    ensures
        r@ == (match entry.executable {
            Some(e) => e@,
            None => "No executable selected"@,
        }),
{
    match &entry.executable {
        Some(e) => e.clone(),
        None => "No executable selected".to_owned(),
    }
}

/// The size shown under an artwork image: "{width} x {height}".
pub fn grid_dimensions(grid: &ArtworkGrid) -> (r: String)
    ensures
        r@ == decimal(grid.width as nat) + " x "@ + decimal(grid.height as nat),
{
    let mut v: Vec<char> = Vec::new();
    push_decimal(&mut v, grid.width as u64);
    extend_str(&mut v, " x ");
    push_decimal(&mut v, grid.height as u64);
    string_from_chars(&v)
}

// ---------------------------------------------------------------------------------------
// State changes on user actions and finished background work

/// A search finished with `repos`: they are shown, and the provider is remembered as the
/// repository source; whether the settings changed (and so are to be saved).
pub fn show_search_results(state: &mut AppState, provider: Provider, repos: Vec<RepoItem>) -> (settings_changed: bool)
    ensures
        final(state).repos == repos,
        final(state).settings.repo_source@ == provider_label(provider),
        settings_changed == (old(state).settings.repo_source@ != provider_label(provider)),
        *final(state) == (AppState { settings: final(state).settings, repos: repos, ..*old(state) }),
        final(state).settings == (Settings { repo_source: final(state).settings.repo_source, ..old(state).settings }),
{
    let changed = record_search_source(&mut state.settings, provider);
    state.repos = repos;
    changed
}

/// Opens search result `index`: it becomes the current repository, whose releases are to
/// be fetched. Nothing changes where there is no such result.
pub fn open_repo(state: &mut AppState, index: i32) -> (r: Option<RepoItem>)
    ensures
        r == (if 0 <= index < old(state).repos@.len() { Some(old(state).repos@[index as int]) } else { None::<RepoItem> }),
        *final(state) == (match r {
            Some(repo) => AppState { current_repo: Some(repo), ..*old(state) },
            None => *old(state),
        }),
{
    let repo = repo_at(&state.repos, index);
    match repo {
        Some(repo) => {
            state.current_repo = Some(repo.clone());
            Some(repo)
        },
        None => None,
    }
}

/// The releases of the current repository arrived: they are shown, and no file list.
pub fn show_releases(state: &mut AppState, releases: Vec<ReleaseOption>)
    ensures
        *final(state) == (AppState { releases: releases, files: final(state).files, ..*old(state) }),
        final(state).files@.len() == 0,
{
    state.releases = releases;
    state.files = Vec::new();
}

/// Release `index` is selected: its files are shown (none where there is no such release).
pub fn select_release(state: &mut AppState, index: i32)
    ensures
        final(state).files@ == (if 0 <= index < old(state).releases@.len() {
            old(state).releases@[index as int].files@
        } else {
            Seq::<FileOption>::empty()
        }),
        *final(state) == (AppState { files: final(state).files, ..*old(state) }),
{
    let files = release_files(&state.releases, index);
    state.files = files;
}

/// The folder a download goes to.
#[derive(Debug)]
pub enum DownloadName {
    /// The folder name is free: download into it.
    Start(String),
    /// An app folder has that name already: ask for another, suggesting a free one.
    Rename { original: String, suggestion: String },
}

/// The folder for a download requested under `requested` (the repository name, or the
/// name typed in after a clash), given the names already under the applications folder:
/// the sanitized name where it is free, else a clash with the first free numbered name as
/// suggestion.
pub fn download_name(existing: &Vec<String>, requested: &str) -> (r: DownloadName)
    requires
        has_free_numbered_name(names_view(existing@), sanitized(requested@)),
    ensures
        (r is Start) == !names_view(existing@).contains(sanitized(requested@)),
        r matches DownloadName::Start(n) ==> n@ == sanitized(requested@),
        r matches DownloadName::Rename { original, suggestion } ==> original@ == sanitized(requested@)
            && is_unique_name_for(suggestion@, names_view(existing@), original@)
            && !names_view(existing@).contains(suggestion@),
{
    let app_name = sanitize_name(requested);
    let chars = chars_of(app_name.as_str());
    if contains_name(existing, &chars) {
        let suggestion = unique_app_name(existing, app_name.as_str());
        proof {
            crate::ops::lemma_unique_name_is_free(suggestion@, names_view(existing@), app_name@);
        }
        DownloadName::Rename { original: app_name, suggestion }
    } else {
        DownloadName::Start(app_name)
    }
}

/// A download finished. Unless it was a web page that was opened, its app becomes the
/// current app and its executables are offered; whether they are.
pub fn finish_download(state: &mut AppState, outcome: DownloadOutcome) -> (offer_executables: bool)
    ensures
        offer_executables == !outcome.opened_html,
        *final(state) == (if outcome.opened_html {
            *old(state)
        } else {
            AppState {
                current_app_name: Some(outcome.app_name),
                executable_choices: outcome.executables,
                ..*old(state)
            }
        }),
{
    if outcome.opened_html {
        false
    } else {
        state.current_app_name = Some(outcome.app_name);
        state.executable_choices = outcome.executables;
        true
    }
}

/// "Change artwork" on library entry `index`: that app becomes the current one (none
/// where there is no such entry) and the artwork search starts over.
pub fn start_artwork_change(state: &mut AppState, index: i32) -> (r: Option<String>)
    ensures
        r == (if 0 <= index < old(state).library@.len() { Some(old(state).library@[index as int].name) } else { None::<String> }),
        *final(state) == (AppState {
            current_app_name: r,
            artwork_games: final(state).artwork_games,
            artwork_grids: final(state).artwork_grids,
            artwork_page: 0,
            ..*old(state)
        }),
        final(state).artwork_games@.len() == 0,
        final(state).artwork_grids@.len() == 0,
{
    let name = library_name_at(&state.library, index);
    state.current_app_name = name.clone();
    state.artwork_games = Vec::new();
    state.artwork_grids = Vec::new();
    state.artwork_page = 0;
    name
}

/// SteamGridDB games were found: they are shown, and no grids, on the first page.
pub fn show_artwork_games(state: &mut AppState, games: Vec<ArtworkGame>)
    ensures
        *final(state) == (AppState {
            artwork_games: games,
            artwork_grids: final(state).artwork_grids,
            artwork_page: 0,
            ..*old(state)
        }),
        final(state).artwork_grids@.len() == 0,
{
    state.artwork_games = games;
    state.artwork_grids = Vec::new();
    state.artwork_page = 0;
}

/// The grids of a game arrived: they are shown from the first page.
pub fn show_artwork_grids(state: &mut AppState, grids: Vec<ArtworkGrid>)
    ensures
        *final(state) == (AppState { artwork_grids: grids, artwork_page: 0, ..*old(state) }),
{
    state.artwork_grids = grids;
    state.artwork_page = 0;
}

/// Moves the artwork page back (`delta < 0`) or forward, within the pages there are; the
/// page now shown.
pub fn move_artwork_page(state: &mut AppState, delta: i32) -> (page: usize)
    requires
        delta >= 0 ==> old(state).artwork_page < usize::MAX,
    ensures
        page == (if delta < 0 {
            if old(state).artwork_page > 0 { old(state).artwork_page - 1 } else { 0 }
        } else {
            let last = (if old(state).artwork_grids@.len() > 0 { old(state).artwork_grids@.len() - 1 } else { 0 }) / 12;
            if old(state).artwork_page + 1 < last { old(state).artwork_page + 1 } else { last }
        }),
        *final(state) == (AppState { artwork_page: page, ..*old(state) }),
{
    let page = next_artwork_page(state.artwork_page, state.artwork_grids.len(), delta);
    state.artwork_page = page;
    page
}

/// The app and the image URL that applying grid `index` of the shown page uses, where both
/// are there.
pub fn artwork_to_apply(state: &AppState, index: i32) -> (r: Option<(String, String)>)
    requires
        index >= 0,
        state.artwork_page * 12 + index <= usize::MAX,
    ensures
        r == (match state.current_app_name {
            Some(app) => if state.artwork_page * 12 + index < state.artwork_grids@.len() {
                Some((app, state.artwork_grids@[state.artwork_page * 12 + index].url))
            } else {
                None
            },
            None => None,
        }),
{
    let url = artwork_url_at(&state.artwork_grids, state.artwork_page, index);
    match (&state.current_app_name, url) {
        (Some(app), Some(url)) => Some((app.clone(), url)),
        _ => None,
    }
}

/// Executable choice `index` is picked for the current app: it is stored as the app's
/// executable (keeping its cloud save folder); the app's name, or `None` (and nothing
/// changes) where there is no current app or no such choice.
pub fn choose_executable(state: &mut AppState, index: i32) -> (r: Option<String>)
    ensures
        match old(state).current_app_name {
            Some(app) if 0 <= index < old(state).executable_choices@.len() => {
                &&& r == Some(app)
                &&& final(state).config@ == old(state).config@.insert(
                    app@,
                    AppConfig {
                        executable: Some(old(state).executable_choices@[index as int].path),
                        cloud_save_location: config_or_empty(old(state).config@, app@).cloud_save_location,
                    },
                )
                &&& *final(state) == (AppState { config: final(state).config, ..*old(state) })
            },
            _ => r is None && *final(state) == *old(state),
        },
{
    let choice = executable_choice_at(&state.executable_choices, index);
    match (&state.current_app_name, choice) {
        (Some(app), Some(choice)) => {
            let app = app.clone();
            state.config.set_executable(app.clone(), choice.path);
            Some(app)
        },
        _ => None,
    }
}

/// What syncing the cloud save of a library entry does.
#[derive(Debug)]
pub enum CloudSave {
    /// There is no such library entry.
    NoApp,
    /// The app has no cloud save folder configured.
    NotConfigured(String),
    /// Copy the contents of `folder` into the app's saves folder.
    Sync { app: String, folder: String },
}

/// The cloud save sync of library entry `index`.
pub fn cloud_save_plan(state: &AppState, index: i32) -> (r: CloudSave)
    ensures
        if 0 <= index < state.library@.len() {
            let app = state.library@[index as int].name;
            match config_or_empty(state.config@, app@).cloud_save_location {
                Some(folder) => r == CloudSave::Sync { app, folder },
                None => r == CloudSave::NotConfigured(app),
            }
        } else {
            r is NoApp
        },
{
    match library_name_at(&state.library, index) {
        Some(app) => {
            let folder = match state.config.get(app.as_str()) {
                Some(c) => c.cloud_save_location,
                None => None,
            };
            match folder {
                Some(folder) => CloudSave::Sync { app, folder },
                None => CloudSave::NotConfigured(app),
            }
        },
        None => CloudSave::NoApp,
    }
}

/// A cloud save folder was picked for library entry `index`: it is stored (keeping the
/// app's executable); the app's name, or `None` (and nothing changes) where there is no
/// such entry.
pub fn set_cloud_save(state: &mut AppState, index: i32, folder: String) -> (r: Option<String>)
    ensures
        if 0 <= index < old(state).library@.len() {
            let app = old(state).library@[index as int].name;
            &&& r == Some(app)
            &&& final(state).config@ == old(state).config@.insert(
                app@,
                AppConfig {
                    executable: config_or_empty(old(state).config@, app@).executable,
                    cloud_save_location: Some(folder),
                },
            )
            &&& *final(state) == (AppState { config: final(state).config, ..*old(state) })
        } else {
            r is None && *final(state) == *old(state)
        },
{
    match library_name_at(&state.library, index) {
        Some(app) => {
            state.config.set_cloud_save_location(app.clone(), folder);
            Some(app)
        },
        None => None,
    }
}

/// Theme `index` is picked: it becomes the theme setting; whether there is such a theme
/// (nothing changes where there is not).
pub fn choose_theme(state: &mut AppState, index: i32) -> (chosen: bool)
    ensures
        chosen == (0 <= index < old(state).themes@.len()),
        *final(state) == (if chosen {
            AppState {
                settings: Settings { theme: old(state).themes@[index as int], ..old(state).settings },
                ..*old(state)
            }
        } else {
            *old(state)
        }),
{
    match theme_at(&state.themes, index) {
        Some(theme) => {
            state.settings.theme = theme;
            true
        },
        None => false,
    }
}

} // verus!
