//! The launcher's state: providers, settings, per-app configuration, folder layout and
//! the records that searches, downloads and the library produce.
use vstd::prelude::*;
use crate::sorting::keys_view;
use crate::text::{chars_of, chars_equal, chars_equal_str, chars_eq_ignore_ascii_case,
    eq_ignore_ascii_case, trim_ws, trim_chars, string_from_chars, extend_str, extend_chars,
    index_of, find_char, Trim};

verus! {

/// Where repositories are searched.
#[derive(Clone, Copy, Debug, PartialEq, Eq, Structural)]
pub enum Provider {
    GitHub,
    GitLab,
    InternetArchive,
}

pub open spec fn provider_label(p: Provider) -> Seq<char> {
    match p {
        Provider::GitHub => "GitHub"@,
        Provider::GitLab => "GitLab"@,
        Provider::InternetArchive => "Internet Archive"@,
    }
}

pub open spec fn provider_index(p: Provider) -> i32 {
    match p {
        Provider::GitHub => 0,
        Provider::GitLab => 1,
        Provider::InternetArchive => 2,
    }
}

impl Provider {
    /// The provider at a position of the provider picker; unknown positions mean GitHub.
    pub fn from_index(index: i32) -> (p: Provider)
        ensures
            p == (if index == 1 {
                Provider::GitLab
            } else if index == 2 {
                Provider::InternetArchive
            } else {
                Provider::GitHub
            }),
    {
        if index == 1 {
            Provider::GitLab
        } else if index == 2 {
            Provider::InternetArchive
        } else {
            Provider::GitHub
        }
    }

    /// The provider with a label; unknown labels mean GitHub.
    pub fn from_label(label: &str) -> (p: Provider)
        ensures
            p == (if label@ == "GitLab"@ {
                Provider::GitLab
            } else if label@ == "Internet Archive"@ {
                Provider::InternetArchive
            } else {
                Provider::GitHub
            }),
    {
        let l = chars_of(label);
        if chars_equal_str(&l, "GitLab") {
            Provider::GitLab
        } else if chars_equal_str(&l, "Internet Archive") {
            Provider::InternetArchive
        } else {
            Provider::GitHub
        }
    }

    /// The position of the provider in the provider picker.
    pub fn as_index(self) -> (i: i32)
        ensures
            i == provider_index(self),
    {
        match self {
            Provider::GitHub => 0,
            Provider::GitLab => 1,
            Provider::InternetArchive => 2,
        }
    }

    /// The provider's label.
    pub fn as_str(self) -> (s: &'static str)
        ensures
            s@ == provider_label(self),
    {
        match self {
            Provider::GitHub => "GitHub",
            Provider::GitLab => "GitLab",
            Provider::InternetArchive => "Internet Archive",
        }
    }
}

/// Index and label round-trip: reading back the index or the label of a provider gives
/// the provider.
pub proof fn lemma_provider_round_trip(p: Provider)
    ensures
        (if provider_index(p) == 1 {
            Provider::GitLab
        } else if provider_index(p) == 2 {
            Provider::InternetArchive
        } else {
            Provider::GitHub
        }) == p,
        (if provider_label(p) == "GitLab"@ {
            Provider::GitLab
        } else if provider_label(p) == "Internet Archive"@ {
            Provider::InternetArchive
        } else {
            Provider::GitHub
        }) == p,
{
    reveal_strlit("GitHub");
    reveal_strlit("GitLab");
    reveal_strlit("Internet Archive");
    assert("GitHub"@ != "GitLab"@ ==> true);
    if p == Provider::GitHub {
        assert("GitHub"@[3] != "GitLab"@[3]);
        assert("GitHub"@.len() != "Internet Archive"@.len());
    }
    if p == Provider::InternetArchive {
        assert("Internet Archive"@.len() != "GitLab"@.len());
    }
}

/// User settings (settings.json).
#[derive(Debug)]
pub struct Settings {
    pub theme: String,
    pub fullscreen: String,
    pub repo_source: String,
    pub steamgriddb_api_key: String,
}

impl Clone for Settings {
    fn clone(&self) -> (r: Settings)
        ensures
            r == *self,
    {
        Settings {
            theme: self.theme.clone(),
            fullscreen: self.fullscreen.clone(),
            repo_source: self.repo_source.clone(),
            steamgriddb_api_key: self.steamgriddb_api_key.clone(),
        }
    }
}

/// A trimmed text, or `None` where nothing is left.
pub open spec fn non_blank(s: Seq<char>) -> Option<Seq<char>> {
    if trim_ws(s).len() == 0 {
        None
    } else {
        Some(trim_ws(s))
    }
}

impl Settings {
    /// The settings of a first start: the "Default Dark" theme, windowed, GitHub, and the
    /// given SteamGridDB API key.
    pub fn with_api_key(steamgriddb_api_key: String) -> (s: Settings)
        ensures
            s.theme@ == "Default Dark"@,
            s.fullscreen@ == "Windowed"@,
            s.repo_source@ == "GitHub"@,
            s.steamgriddb_api_key == steamgriddb_api_key,
    {
        Settings {
            theme: "Default Dark".to_owned(),
            fullscreen: "Windowed".to_owned(),
            repo_source: "GitHub".to_owned(),
            steamgriddb_api_key,
        }
    }

    /// Whether the window mode is "fullscreen", in any letter case.
    pub fn fullscreen_enabled(&self) -> (r: bool)
        ensures
            r == eq_ignore_ascii_case(self.fullscreen@, "fullscreen"@),
    {
        let f = chars_of(self.fullscreen.as_str());
        let w = chars_of("fullscreen");
        chars_eq_ignore_ascii_case(&f, &w)
    }

    /// Sets the window mode to "Fullscreen" or "Windowed".
    pub fn set_fullscreen_enabled(&mut self, enabled: bool)
        ensures
            final(self).fullscreen@ == (if enabled { "Fullscreen"@ } else { "Windowed"@ }),
            final(self).theme == old(self).theme,
            final(self).repo_source == old(self).repo_source,
            final(self).steamgriddb_api_key == old(self).steamgriddb_api_key,
    {
        self.fullscreen = if enabled { "Fullscreen".to_owned() } else { "Windowed".to_owned() };
    }

    /// The position in the provider picker of the configured repository source.
    pub fn provider_index(&self) -> (i: i32)
        ensures
            i == provider_index(
                if self.repo_source@ == "GitLab"@ {
                    Provider::GitLab
                } else if self.repo_source@ == "Internet Archive"@ {
                    Provider::InternetArchive
                } else {
                    Provider::GitHub
                },
            ),
    {
        Provider::from_label(self.repo_source.as_str()).as_index()
    }

    /// The configured SteamGridDB API key, trimmed, unless it is blank.
    pub fn steamgriddb_key(&self) -> (r: Option<String>)
        ensures
            r matches Some(k) ==> non_blank(self.steamgriddb_api_key@) == Some(k@),
            r is None ==> non_blank(self.steamgriddb_api_key@) is None,
    {
        let k = chars_of(self.steamgriddb_api_key.as_str());
        let t = trim_chars(&k, Trim::Whitespace);
        if t.len() == 0 {
            None
        } else {
            Some(string_from_chars(&t))
        }
    }
}

/// The key chosen from a configured key and the environment's value: the configured one
/// unless blank, else the environment's unless blank; trimmed.
pub open spec fn chosen_key(configured: Seq<char>, env: Option<Seq<char>>) -> Option<Seq<char>> {
    match non_blank(configured) {
        Some(k) => Some(k),
        None => match env {
            Some(e) => non_blank(e),
            None => None,
        },
    }
}

pub open spec fn opt_str_view(s: Option<&str>) -> Option<Seq<char>> {
    match s {
        Some(v) => Some(v@),
        None => None,
    }
}

pub open spec fn opt_string_view(s: Option<String>) -> Option<Seq<char>> {
    match s {
        Some(v) => Some(v@),
        None => None,
    }
}

/// The SteamGridDB API key to use: the configured one, else the value of the
/// `STEAMGRIDDB_API_KEY` environment variable (`env_value`), trimmed, unless blank.
pub fn steamgriddb_key(settings: &Settings, env_value: Option<&str>) -> (r: Option<String>)
    ensures
        opt_string_view(r) == chosen_key(settings.steamgriddb_api_key@, opt_str_view(env_value)),
{
    if let Some(key) = settings.steamgriddb_key() {
        return Some(key);
    }
    match env_value {
        Some(e) => {
            let v = chars_of(e);
            let t = trim_chars(&v, Trim::Whitespace);
            if t.len() == 0 {
                None
            } else {
                Some(string_from_chars(&t))
            }
        },
        None => None,
    }
}

/// Per-app configuration (config.json).
#[derive(Debug)]
pub struct AppConfig {
    pub executable: Option<String>,
    pub cloud_save_location: Option<String>,
}

pub fn clone_opt_string(s: &Option<String>) -> (r: Option<String>)
    ensures
        r == *s,
{
    match s {
        Some(v) => Some(v.clone()),
        None => None,
    }
}

impl Clone for AppConfig {
    fn clone(&self) -> (r: AppConfig)
        ensures
            r == *self,
    {
        AppConfig {
            executable: clone_opt_string(&self.executable),
            cloud_save_location: clone_opt_string(&self.cloud_save_location),
        }
    }
}

impl AppConfig {
    /// No executable and no cloud save folder.
    pub fn empty() -> (c: AppConfig)
        ensures
            c.executable is None,
            c.cloud_save_location is None,
    {
        AppConfig { executable: None, cloud_save_location: None }
    }
}

pub open spec fn empty_app_config() -> AppConfig {
    AppConfig { executable: None, cloud_save_location: None }
}

/// The configuration of app `name`, or none set.
pub open spec fn config_or_empty(m: Map<Seq<char>, AppConfig>, name: Seq<char>) -> AppConfig {
    if m.contains_key(name) {
        m[name]
    } else {
        empty_app_config()
    }
}

/// The configuration of every app, by app name.
///
/// Held as a list of `(name, configuration)` pairs in which no name occurs twice (the
/// type invariant); lookups compare names character by character. The view is the map
/// from names to configurations; the order of the pairs is not part of it (config.json
/// is written sorted by name).
pub struct Config {
    entries: Vec<(String, AppConfig)>,
}

pub open spec fn unique_names(s: Seq<(String, AppConfig)>) -> bool {
    forall|i: int, j: int| 0 <= i < s.len() && 0 <= j < s.len() && i != j ==> s[i].0@ != s[j].0@
}

pub open spec fn entries_map(s: Seq<(String, AppConfig)>) -> Map<Seq<char>, AppConfig> {
    Map::new(
        |k: Seq<char>| exists|i: int| 0 <= i < s.len() && s[i].0@ == k,
        |k: Seq<char>| s[choose|i: int| 0 <= i < s.len() && s[i].0@ == k].1,
    )
}

proof fn lemma_entries_map_at(s: Seq<(String, AppConfig)>, i: int)
    requires
        unique_names(s),
        0 <= i < s.len(),
    ensures
        entries_map(s).contains_key(s[i].0@),
        entries_map(s)[s[i].0@] == s[i].1,
{
    let k = s[i].0@;
    assert(exists|j: int| 0 <= j < s.len() && s[j].0@ == k);
    let j = choose|j: int| 0 <= j < s.len() && s[j].0@ == k;
    assert(j == i);
}

proof fn lemma_entries_map_absent(s: Seq<(String, AppConfig)>, k: Seq<char>)
    requires
        forall|i: int| 0 <= i < s.len() ==> s[i].0@ != k,
    ensures
        !entries_map(s).contains_key(k),
{
}

impl View for Config {
    type V = Map<Seq<char>, AppConfig>;

    closed spec fn view(&self) -> Map<Seq<char>, AppConfig> {
        entries_map(self.entries@)
    }
}

impl Config {
    #[verifier::type_invariant]
    closed spec fn wf(self) -> bool {
        unique_names(self.entries@)
    }

    /// No app configured.
    pub fn new() -> (c: Config)
        ensures
            c@ == Map::<Seq<char>, AppConfig>::empty(),
    {
        let c = Config { entries: Vec::new() };
        assert(c@ =~= Map::<Seq<char>, AppConfig>::empty());
        c
    }

    fn position(&self, name: &Vec<char>) -> (r: Option<usize>)
        ensures
            r matches Some(i) ==> i < self.entries@.len() && self.entries@[i as int].0@ == name@,
            r is None ==> forall|i: int| 0 <= i < self.entries@.len() ==> self.entries@[i].0@ != name@,
    {
        let mut i: usize = 0;
        while i < self.entries.len()
            invariant
                i <= self.entries@.len(),
                forall|j: int| 0 <= j < i ==> self.entries@[j].0@ != name@,
            decreases self.entries.len() - i,
        {
            let other = chars_of(self.entries[i].0.as_str());
            if chars_equal(&other, name) {
                return Some(i);
            }
            i += 1;
        }
        None
    }

    /// The configuration of app `name`.
    pub fn get(&self, name: &str) -> (r: Option<AppConfig>)
        ensures
            r == (if self@.contains_key(name@) { Some(self@[name@]) } else { None }),
    {
        proof {
            use_type_invariant(self);
        }
        let n = chars_of(name);
        match self.position(&n) {
            Some(i) => {
                proof {
                    lemma_entries_map_at(self.entries@, i as int);
                }
                Some(self.entries[i].1.clone())
            },
            None => {
                proof {
                    lemma_entries_map_absent(self.entries@, name@);
                }
                None
            },
        }
    }

    /// Sets the configuration of app `name`.
    pub fn insert(&mut self, name: String, value: AppConfig)
        ensures
            final(self)@ == old(self)@.insert(name@, value),
    {
        proof {
            use_type_invariant(&*self);
        }
        let n = chars_of(name.as_str());
        let mut entries: Vec<(String, AppConfig)> = Vec::new();
        std::mem::swap(&mut entries, &mut self.entries);
        let ghost before = entries@;
        let pos = {
            let tmp = Config { entries };
            let p = tmp.position(&n);
            entries = tmp.entries;
            p
        };
        match pos {
            Some(i) => {
                entries.set(i, (name, value));
                proof {
                    let after = entries@;
                    assert forall|k: Seq<char>| #![auto] entries_map(after).contains_key(k) == entries_map(before).insert(n@, value).contains_key(k) by {
                        if k != n@ && entries_map(before).contains_key(k) {
                            let j = choose|j: int| 0 <= j < before.len() && before[j].0@ == k;
                            assert(after[j] == before[j]);
                        }
                        if entries_map(after).contains_key(k) {
                            let j = choose|j: int| 0 <= j < after.len() && after[j].0@ == k;
                            if j != i {
                                assert(after[j] == before[j]);
                            }
                        }
                        assert(after[i as int].0@ == n@);
                    }
                    assert forall|k: Seq<char>| entries_map(after).contains_key(k) implies entries_map(after)[k] == entries_map(before).insert(n@, value)[k] by {
                        let j = choose|j: int| 0 <= j < after.len() && after[j].0@ == k;
                        lemma_entries_map_at(after, j);
                        if j != i {
                            assert(after[j] == before[j]);
                            lemma_entries_map_at(before, j);
                        }
                    }
                    assert(entries_map(after) =~= entries_map(before).insert(n@, value));
                }
            },
            None => {
                entries.push((name, value));
                proof {
                    let after = entries@;
                    let last = (after.len() - 1) as int;
                    assert forall|k: Seq<char>| #![auto] entries_map(after).contains_key(k) == entries_map(before).insert(n@, value).contains_key(k) by {
                        if k != n@ && entries_map(before).contains_key(k) {
                            let j = choose|j: int| 0 <= j < before.len() && before[j].0@ == k;
                            assert(after[j] == before[j]);
                        }
                        if entries_map(after).contains_key(k) {
                            let j = choose|j: int| 0 <= j < after.len() && after[j].0@ == k;
                            if j != last {
                                assert(after[j] == before[j]);
                            }
                        }
                        assert(after[last].0@ == n@);
                    }
                    assert forall|k: Seq<char>| entries_map(after).contains_key(k) implies entries_map(after)[k] == entries_map(before).insert(n@, value)[k] by {
                        let j = choose|j: int| 0 <= j < after.len() && after[j].0@ == k;
                        lemma_entries_map_at(after, j);
                        if j != last {
                            assert(after[j] == before[j]);
                            lemma_entries_map_at(before, j);
                        }
                    }
                    assert(entries_map(after) =~= entries_map(before).insert(n@, value));
                }
            },
        }
        self.entries = entries;
    }

    /// Sets the executable of app `name`, keeping its cloud save folder.
    pub fn set_executable(&mut self, name: String, executable: String)
        ensures
            final(self)@ == old(self)@.insert(
                name@,
                AppConfig {
                    executable: Some(executable),
                    cloud_save_location: config_or_empty(old(self)@, name@).cloud_save_location,
                },
            ),
    {
        let current = match self.get(name.as_str()) {
            Some(c) => c,
            None => AppConfig::empty(),
        };
        self.insert(name, AppConfig { executable: Some(executable), cloud_save_location: current.cloud_save_location });
    }

    /// Sets the cloud save folder of app `name`, keeping its executable.
    pub fn set_cloud_save_location(&mut self, name: String, folder: String)
        ensures
            final(self)@ == old(self)@.insert(
                name@,
                AppConfig {
                    executable: config_or_empty(old(self)@, name@).executable,
                    cloud_save_location: Some(folder),
                },
            ),
    {
        let current = match self.get(name.as_str()) {
            Some(c) => c,
            None => AppConfig::empty(),
        };
        self.insert(name, AppConfig { executable: current.executable, cloud_save_location: Some(folder) });
    }

    /// Forgets the configuration of app `name`.
    pub fn remove(&mut self, name: &str)
        ensures
            final(self)@ == old(self)@.remove(name@),
    {
        proof {
            use_type_invariant(&*self);
        }
        let n = chars_of(name);
        let mut entries: Vec<(String, AppConfig)> = Vec::new();
        std::mem::swap(&mut entries, &mut self.entries);
        let ghost before = entries@;
        let pos = {
            let tmp = Config { entries };
            let p = tmp.position(&n);
            entries = tmp.entries;
            p
        };
        match pos {
            Some(i) => {
                let _ = entries.remove(i);
                proof {
                    let after = entries@;
                    assert forall|j: int| 0 <= j < after.len() implies #[trigger] after[j] == (if j < i { before[j] } else { before[j + 1] }) by {}
                    assert forall|k: Seq<char>| #![auto] entries_map(after).contains_key(k) == entries_map(before).remove(n@).contains_key(k) by {
                        if k != n@ && entries_map(before).contains_key(k) {
                            let j = choose|j: int| 0 <= j < before.len() && before[j].0@ == k;
                            if j < i {
                                assert(after[j] == before[j]);
                            } else {
                                assert(j != i);
                                assert(after[j - 1] == before[j]);
                            }
                        }
                        if entries_map(after).contains_key(k) {
                            let j = choose|j: int| 0 <= j < after.len() && after[j].0@ == k;
                            if j < i {
                                assert(after[j] == before[j]);
                            } else {
                                assert(after[j] == before[j + 1]);
                            }
                        }
                    }
                    assert forall|k: Seq<char>| entries_map(after).contains_key(k) implies entries_map(after)[k] == entries_map(before).remove(n@)[k] by {
                        let j = choose|j: int| 0 <= j < after.len() && after[j].0@ == k;
                        lemma_entries_map_at(after, j);
                        if j < i {
                            lemma_entries_map_at(before, j);
                        } else {
                            lemma_entries_map_at(before, j + 1);
                        }
                    }
                    assert(entries_map(after) =~= entries_map(before).remove(n@));
                }
            },
            None => {
                proof {
                    lemma_entries_map_absent(before, n@);
                    assert(entries_map(before) =~= entries_map(before).remove(n@));
                }
            },
        }
        self.entries = entries;
    }

    /// The configured apps as `(name, configuration)` pairs, each name once.
    pub fn entries(&self) -> (r: Vec<(String, AppConfig)>)
        ensures
            unique_names(r@),
            entries_map(r@) == self@,
    {
        proof {
            use_type_invariant(self);
        }
        let mut r: Vec<(String, AppConfig)> = Vec::new();
        let mut i: usize = 0;
        while i < self.entries.len()
            invariant
                i <= self.entries@.len(),
                r@ == self.entries@.take(i as int),
            decreases self.entries.len() - i,
        {
            r.push((self.entries[i].0.clone(), self.entries[i].1.clone()));
            i += 1;
            assert(r@ =~= self.entries@.take(i as int));
        }
        assert(r@ =~= self.entries@);
        r
    }
}

// ---------------------------------------------------------------------------------------
// Records

/// A downloadable file.
#[derive(Debug)]
pub struct FileOption {
    pub name: String,
    pub url: String,
}

impl Clone for FileOption {
    fn clone(&self) -> (r: FileOption)
        ensures
            r == *self,
    {
        FileOption { name: self.name.clone(), url: self.url.clone() }
    }
}

/// Copies a list of files.
pub fn clone_files(files: &Vec<FileOption>) -> (r: Vec<FileOption>)
    ensures
        r@ == files@,
{
    let r = files.clone();
    assert(r@ =~= files@);
    r
}

/// A repository (or archive item) found by a search.
#[derive(Debug)]
pub struct RepoItem {
    pub provider: Provider,
    pub name: String,
    pub owner: String,
    pub description: String,
    pub project_id: Option<u64>,
    pub identifier: Option<String>,
}

impl Clone for RepoItem {
    fn clone(&self) -> (r: RepoItem)
        ensures
            r == *self,
    {
        RepoItem {
            provider: self.provider,
            name: self.name.clone(),
            owner: self.owner.clone(),
            description: self.description.clone(),
            project_id: self.project_id,
            identifier: clone_opt_string(&self.identifier),
        }
    }
}

/// A release, or an archive item's file list, with its files.
#[derive(Debug)]
pub struct ReleaseOption {
    pub title: String,
    pub subtitle: String,
    pub files: Vec<FileOption>,
}

impl Clone for ReleaseOption {
    fn clone(&self) -> (r: ReleaseOption)
        ensures
            r.title == self.title,
            r.subtitle == self.subtitle,
            r.files@ == self.files@,
    {
        ReleaseOption {
            title: self.title.clone(),
            subtitle: self.subtitle.clone(),
            files: clone_files(&self.files),
        }
    }
}

/// An installed app.
#[derive(Debug)]
pub struct LibraryEntry {
    pub name: String,
    pub executable: Option<String>,
}

impl Clone for LibraryEntry {
    fn clone(&self) -> (r: LibraryEntry)
        ensures
            r == *self,
    {
        LibraryEntry { name: self.name.clone(), executable: clone_opt_string(&self.executable) }
    }
}

/// A file that can launch an app, found after a download.
#[derive(Debug)]
pub struct ExecutableChoice {
    pub display: String,
    pub path: String,
}

impl Clone for ExecutableChoice {
    fn clone(&self) -> (r: ExecutableChoice)
        ensures
            r == *self,
    {
        ExecutableChoice { display: self.display.clone(), path: self.path.clone() }
    }
}

/// A game found on SteamGridDB.
#[derive(Debug)]
pub struct ArtworkGame {
    pub id: usize,
    pub name: String,
    pub subtitle: String,
}

impl Clone for ArtworkGame {
    fn clone(&self) -> (r: ArtworkGame)
        ensures
            r == *self,
    {
        ArtworkGame { id: self.id, name: self.name.clone(), subtitle: self.subtitle.clone() }
    }
}

/// A SteamGridDB grid image, with the local preview file once downloaded.
#[derive(Debug)]
pub struct ArtworkGrid {
    pub id: u32,
    pub url: String,
    pub thumb: String,
    pub width: u32,
    pub height: u32,
    pub preview_path: Option<String>,
}

impl Clone for ArtworkGrid {
    fn clone(&self) -> (r: ArtworkGrid)
        ensures
            r == *self,
    {
        ArtworkGrid {
            id: self.id,
            url: self.url.clone(),
            thumb: self.thumb.clone(),
            width: self.width,
            height: self.height,
            preview_path: clone_opt_string(&self.preview_path),
        }
    }
}

/// One entry of the error log (errorlogs.json).
#[derive(Debug)]
pub struct ErrorEntry {
    pub error: String,
    pub timestamp: String,
}

/// What a download produced.
#[derive(Debug)]
pub struct DownloadOutcome {
    pub app_name: String,
    pub file_name: String,
    pub executables: Vec<ExecutableChoice>,
    pub opened_html: bool,
}

/// Everything the window shows and edits.
pub struct AppState {
    pub settings: Settings,
    pub config: Config,
    pub repos: Vec<RepoItem>,
    pub releases: Vec<ReleaseOption>,
    pub files: Vec<FileOption>,
    pub library: Vec<LibraryEntry>,
    pub executable_choices: Vec<ExecutableChoice>,
    pub themes: Vec<String>,
    pub current_repo: Option<RepoItem>,
    pub current_app_name: Option<String>,
    pub artwork_games: Vec<ArtworkGame>,
    pub artwork_grids: Vec<ArtworkGrid>,
    pub artwork_page: usize,
}

impl AppState {
    /// The state at start-up: the loaded settings and configuration, nothing else.
    pub fn new(settings: Settings, config: Config) -> (s: AppState)
        ensures
            s.settings == settings,
            s.config == config,
            s.repos@.len() == 0,
            s.releases@.len() == 0,
            s.files@.len() == 0,
            s.library@.len() == 0,
            s.executable_choices@.len() == 0,
            s.themes@.len() == 0,
            s.current_repo is None,
            s.current_app_name is None,
            s.artwork_games@.len() == 0,
            s.artwork_grids@.len() == 0,
            s.artwork_page == 0,
    {
        AppState {
            settings,
            config,
            repos: Vec::new(),
            releases: Vec::new(),
            files: Vec::new(),
            library: Vec::new(),
            executable_choices: Vec::new(),
            themes: Vec::new(),
            current_repo: None,
            current_app_name: None,
            artwork_games: Vec::new(),
            artwork_grids: Vec::new(),
            artwork_page: 0,
        }
    }
}

// ---------------------------------------------------------------------------------------
// Paths

/// `Path::join` on POSIX paths: an absolute `name` replaces `base`; otherwise `name` is
/// appended after a `/` separator where `base` does not already end in one.
pub open spec fn path_join(base: Seq<char>, name: Seq<char>) -> Seq<char> {
    if name.len() > 0 && name[0] == '/' {
        name
    } else if base.len() > 0 && base.last() != '/' {
        base + seq!['/'] + name
    } else {
        base + name
    }
}

/// Joins two paths (see `path_join`).
pub fn join_path(base: &str, name: &str) -> (r: String)
    ensures
        r@ == path_join(base@, name@),
{
    let b = chars_of(base);
    let n = chars_of(name);
    if n.len() > 0 && n[0] == '/' {
        return string_from_chars(&n);
    }
    let mut out = b.clone();
    if b.len() > 0 && b[b.len() - 1] != '/' {
        out.push('/');
    }
    extend_chars(&mut out, &n);
    string_from_chars(&out)
}

/// The folders and files the launcher keeps under its working folder.
#[derive(Debug)]
pub struct Paths {
    pub root: String,
    pub applications: String,
    pub themes: String,
    pub rr_saves: String,
    pub artwork: String,
    pub cache: String,
    pub settings: String,
    pub config: String,
    pub errors: String,
}

impl Clone for Paths {
    fn clone(&self) -> (r: Paths)
        ensures
            r == *self,
    {
        Paths {
            root: self.root.clone(),
            applications: self.applications.clone(),
            themes: self.themes.clone(),
            rr_saves: self.rr_saves.clone(),
            artwork: self.artwork.clone(),
            cache: self.cache.clone(),
            settings: self.settings.clone(),
            config: self.config.clone(),
            errors: self.errors.clone(),
        }
    }
}

/// The layout under `root`.
pub open spec fn paths_under(root: Seq<char>, p: Paths) -> bool {
    let saves = path_join(path_join(root, "saves"@), "reporocket"@);
    &&& p.root@ == root
    &&& p.applications@ == path_join(root, "applications"@)
    &&& p.themes@ == path_join(root, "themes"@)
    &&& p.rr_saves@ == saves
    &&& p.artwork@ == path_join(saves, "artwork"@)
    &&& p.cache@ == path_join(saves, "cache"@)
    &&& p.settings@ == path_join(saves, "settings.json"@)
    &&& p.config@ == path_join(saves, "config.json"@)
    &&& p.errors@ == path_join(saves, "errorlogs.json"@)
}

impl Paths {
    /// The layout under the working folder `root`: `applications/`, `themes/` and
    /// `saves/reporocket/` with its artwork and cache folders and JSON files.
    pub fn from_root(root: &str) -> (p: Paths)
        ensures
            paths_under(root@, p),
    {
        let applications = join_path(root, "applications");
        let themes = join_path(root, "themes");
        let saves = join_path(root, "saves");
        let rr_saves = join_path(saves.as_str(), "reporocket");
        let artwork = join_path(rr_saves.as_str(), "artwork");
        let cache = join_path(rr_saves.as_str(), "cache");
        let settings = join_path(rr_saves.as_str(), "settings.json");
        let config = join_path(rr_saves.as_str(), "config.json");
        let errors = join_path(rr_saves.as_str(), "errorlogs.json");
        Paths {
            root: root.to_owned(),
            applications,
            themes,
            rr_saves,
            artwork,
            cache,
            settings,
            config,
            errors,
        }
    }

    /// The folder of app `name`.
    pub fn app_dir(&self, name: &str) -> (r: String)
        ensures
            r@ == path_join(self.applications@, name@),
    {
        join_path(self.applications.as_str(), name)
    }

    /// The cloud-save copy folder of app `name`: `saves/<name>` under the root.
    pub fn saves_dir(&self, name: &str) -> (r: String)
        ensures
            r@ == path_join(path_join(self.root@, "saves"@), name@),
    {
        let saves = join_path(self.root.as_str(), "saves");
        join_path(saves.as_str(), name)
    }
}

/// A path part that is a component: not empty and not `.`.
pub open spec fn keep_part(x: Seq<char>) -> Seq<Seq<char>> {
    if x.len() > 0 && x != "."@ {
        seq![x]
    } else {
        seq![]
    }
}

/// The named parts of a path, split at `/`, without empty and `.` parts.
pub open spec fn normal_parts(s: Seq<char>) -> Seq<Seq<char>>
    decreases s.len(),
{
    match index_of(s, '/') {
        Some(i) => {
            proof {
                crate::text::lemma_index_of_found(s, '/');
            }
            keep_part(s.take(i)) + normal_parts(s.skip(i + 1))
        },
        None => keep_part(s),
    }
}

/// `Path::components` on POSIX paths: the root `/` or a leading `.` where present, then the
/// named parts.
pub open spec fn path_components(s: Seq<char>) -> Seq<Seq<char>> {
    path_head(s) + normal_parts(s)
}

/// The root `/`, or a leading `.`, where a path has one.
pub open spec fn path_head(s: Seq<char>) -> Seq<Seq<char>> {
    if s.len() > 0 && s[0] == '/' {
        seq!["/"@]
    } else if s == "."@ || (s.len() >= 2 && s[0] == '.' && s[1] == '/') {
        seq!["."@]
    } else {
        seq![]
    }
}

proof fn lemma_head_extend(a: Seq<char>, r: Seq<char>)
    requires
        a.len() > 0,
        r.len() > 0,
        a != "."@ || r[0] == '/',
    ensures
        path_head(a + r) == path_head(a),
{
    reveal_strlit(".");
    let j = a + r;
    assert(j[0] == a[0]);
    assert(j.len() >= 2);
    assert(j != "."@);
    if a.len() >= 2 {
        assert(j[1] == a[1]);
    } else {
        assert(j[1] == r[0]);
        if a[0] == '.' {
            assert(a =~= "."@);
        }
    }
}

/// `Path::starts_with`: the components of `base` begin the components of `path`.
pub open spec fn path_starts_with(path: Seq<char>, base: Seq<char>) -> bool {
    path_components(base).is_prefix_of(path_components(path))
}

pub fn components_of(s: &str) -> (r: Vec<Vec<char>>)
    ensures
        keys_view(r@) == path_components(s@),
{
    let v = chars_of(s);
    let dot = chars_of(".");
    let slash = chars_of("/");
    let mut r: Vec<Vec<char>> = Vec::new();
    if v.len() > 0 && v[0] == '/' {
        r.push(slash);
    } else if chars_equal(&v, &dot) || (v.len() >= 2 && v[0] == '.' && v[1] == '/') {
        r.push(dot.clone());
    }
    let ghost head = keys_view(r@);
    assert(head =~= path_head(s@));
    let mut start: usize = 0;
    assert(v@.skip(0) =~= v@);
    loop
        invariant
            start <= v.len(),
            dot@ == "."@,
            v@ == s@,
            head == path_head(s@),
            head + normal_parts(v@) == keys_view(r@) + normal_parts(v@.skip(start as int)),
        decreases v.len() - start,
    {
        let end = find_char(&v, start, '/');
        let part = crate::text::sub_chars(&v, start, end);
        let ghost rest = v@.skip(start as int);
        assert(part@ =~= rest.take(end - start));
        let ghost before = r@;
        if part.len() > 0 && !chars_equal(&part, &dot) {
            r.push(part);
        }
        assert(keys_view(r@) =~= keys_view(before) + keep_part(
            rest.take(end - start),
        ));
        if end == v.len() {
            assert(rest.take(end - start) =~= rest);
            assert(normal_parts(v@.skip(v.len() as int)) =~= keep_part(seq![]));
            assert(head + normal_parts(v@) =~= keys_view(r@));
            return r;
        }
        assert(rest.skip(end - start + 1) =~= v@.skip(end + 1));
        start = end + 1;
    }
}

/// The platform paths are read on.
#[derive(Clone, Copy, Debug, PartialEq, Eq, Structural)]
pub enum Platform {
    Windows,
    MacOs,
    OtherUnix,
}

/// A path with the platform's separators written `/`: on Windows `\\` separates as `/`
/// does; elsewhere it is an ordinary character.
pub open spec fn native_path(path: Seq<char>, platform: Platform) -> Seq<char> {
    if platform == Platform::Windows {
        path.map_values(|c: char| if c == '\\' { '/' } else { c })
    } else {
        path
    }
}

/// A path with the platform's separators written `/`.
pub fn native_path_string(path: &str, platform: Platform) -> (r: String)
    ensures
        r@ == native_path(path@, platform),
{
    if platform != Platform::Windows {
        return path.to_owned();
    }
    let v = chars_of(path);
    let mut out: Vec<char> = Vec::new();
    let mut i: usize = 0;
    while i < v.len()
        invariant
            i <= v.len(),
            platform == Platform::Windows,
            out@ == v@.take(i as int).map_values(|c: char| if c == '\\' { '/' } else { c }),
        decreases v.len() - i,
    {
        let c = v[i];
        out.push(if c == '\\' { '/' } else { c });
        i += 1;
        assert(v@.take(i as int).map_values(|c: char| if c == '\\' { '/' } else { c }) =~= v@.take(i - 1).map_values(
            |c: char| if c == '\\' { '/' } else { c },
        ).push(if v@[i - 1] == '\\' { '/' } else { v@[i - 1] }));
    }
    assert(v@.take(v.len() as int) =~= v@);
    string_from_chars(&out)
}

/// A path that lies outside the folder it must stay in.
#[derive(Debug, PartialEq, Eq, Structural)]
pub enum PathError {
    OutsideRoot,
}

/// Refuses a `path` that is not inside `root`, comparing whole components (split at the
/// platform's separators). The caller passes canonical forms of both where they exist.
pub fn ensure_inside(path: &str, root: &str, platform: Platform) -> (r: Result<(), PathError>)
    ensures
        r is Ok <==> path_starts_with(native_path(path@, platform), native_path(root@, platform)),
        r is Err ==> r == Err::<(), PathError>(PathError::OutsideRoot),
{
    let path_n = native_path_string(path, platform);
    let root_n = native_path_string(root, platform);
    let p = components_of(path_n.as_str());
    let b = components_of(root_n.as_str());
    let ghost pv = keys_view(p@);
    let ghost bv = keys_view(b@);
    if b.len() > p.len() {
        assert(bv.len() > pv.len());
        return Err(PathError::OutsideRoot);
    }
    let mut i: usize = 0;
    while i < b.len()
        invariant
            b.len() <= p.len(),
            i <= b.len(),
            pv == keys_view(p@),
            bv == keys_view(b@),
            pv == path_components(native_path(path@, platform)),
            bv == path_components(native_path(root@, platform)),
            forall|j: int| 0 <= j < i ==> bv[j] == pv[j],
        decreases b.len() - i,
    {
        assert(bv[i as int] == b@[i as int]@);
        assert(pv[i as int] == p@[i as int]@);
        if !chars_equal(&b[i], &p[i]) {
            assert(bv[i as int] != pv[i as int]);
            assert(pv.subrange(0, bv.len() as int)[i as int] == pv[i as int]);
            return Err(PathError::OutsideRoot);
        }
        i += 1;
    }
    Ok(())
}

proof fn lemma_normal_parts_append(s: Seq<char>, n: Seq<char>)
    requires
        forall|i: int| 0 <= i < n.len() ==> n[i] != '/',
    ensures
        normal_parts(s + seq!['/'] + n) == normal_parts(s) + keep_part(n),
    decreases s.len(),
{
    let whole = s + seq!['/'] + n;
    crate::text::lemma_index_of_found(s, '/');
    crate::text::lemma_index_of_found(n, '/');
    match index_of(s, '/') {
        Some(i) => {
            crate::text::lemma_index_of_at(whole, '/', i);
            assert(whole.take(i) =~= s.take(i));
            assert forall|k: int| 0 <= k < i implies whole[k] != '/' by {
                assert(whole[k] == s[k]);
            }
            assert(whole[i] == s[i]);
            crate::text::lemma_index_of_at(whole, '/', i);
            assert(whole.skip(i + 1) =~= s.skip(i + 1) + seq!['/'] + n);
            lemma_normal_parts_append(s.skip(i + 1), n);
            assert(normal_parts(whole) == keep_part(s.take(i)) + normal_parts(whole.skip(i + 1)));
            assert(normal_parts(s) == keep_part(s.take(i)) + normal_parts(s.skip(i + 1)));
            assert(normal_parts(whole) =~= normal_parts(s) + keep_part(n));
        },
        None => {
            assert forall|k: int| 0 <= k < s.len() implies whole[k] != '/' by {
                assert(whole[k] == s[k]);
            }
            crate::text::lemma_index_of_at(whole, '/', s.len() as int);
            assert(whole.take(s.len() as int) =~= s);
            assert(whole.skip(s.len() + 1int) =~= n);
            assert(normal_parts(n) == keep_part(n));
            assert(normal_parts(whole) =~= normal_parts(s) + keep_part(n));
        },
    }
}

/// Joining a plain name (not empty, no `/`, not starting with a dot) to a folder gives a
/// path inside that folder.
pub proof fn lemma_join_plain_name(a: Seq<char>, n: Seq<char>)
    requires
        n.len() > 0,
        n[0] != '.',
        forall|i: int| 0 <= i < n.len() ==> n[i] != '/',
    ensures
        path_starts_with(path_join(a, n), a),
{
    let j = path_join(a, n);
    reveal_strlit(".");
    reveal_strlit("/");
    assert(n[0] != '/');
    crate::text::lemma_index_of_found(n, '/');
    if a.len() == 0 {
        assert(j =~= n);
        assert(normal_parts(a) =~= seq![]);
        assert(path_components(a) =~= seq![]);
    } else if a.last() != '/' {
        lemma_normal_parts_append(a, n);
        assert(j =~= a + (seq!['/'] + n));
        lemma_head_extend(a, seq!['/'] + n);
        assert(path_components(j) =~= path_components(a) + keep_part(n));
    } else {
        let a2 = a.drop_last();
        assert(j =~= a2 + seq!['/'] + n);
        assert(a =~= a2 + seq!['/'] + seq![]);
        lemma_normal_parts_append(a2, n);
        lemma_normal_parts_append(a2, seq![]);
        assert(keep_part(seq![]) =~= seq![]);
        assert(normal_parts(a) =~= normal_parts(a2));
        assert(normal_parts(j) == normal_parts(a2) + keep_part(n));
        assert(j =~= a + n);
        assert(a.last() == '/');
        assert(a != "."@);
        lemma_head_extend(a, n);
        assert(path_components(j) =~= path_components(a) + keep_part(n));
    }
}

/// Joining one name (not empty, not `.`, no `/`) to a folder adds exactly that component:
/// the result lies in the folder, one level down.
pub proof fn lemma_join_one_component(a: Seq<char>, n: Seq<char>)
    requires
        n.len() > 0,
        n != "."@,
        forall|i: int| 0 <= i < n.len() ==> n[i] != '/',
    ensures
        path_components(path_join(a, n)) == path_components(a) + seq![n],
        path_starts_with(path_join(a, n), a),
{
    let j = path_join(a, n);
    reveal_strlit(".");
    reveal_strlit("/");
    assert(n[0] != '/');
    crate::text::lemma_index_of_found(n, '/');
    assert(keep_part(n) =~= seq![n]);
    if a.len() == 0 {
        assert(j =~= n);
        assert(normal_parts(a) =~= seq![]);
        assert(path_components(a) =~= seq![]);
        assert(!(n.len() >= 2 && n[0] == '.' && n[1] == '/'));
        assert(path_head(n) =~= seq![]);
        assert(path_components(j) =~= path_components(a) + seq![n]);
    } else if a.last() != '/' {
        lemma_normal_parts_append(a, n);
        assert(j =~= a + (seq!['/'] + n));
        lemma_head_extend(a, seq!['/'] + n);
        assert(path_components(j) =~= path_components(a) + keep_part(n));
    } else {
        let a2 = a.drop_last();
        assert(j =~= a2 + seq!['/'] + n);
        assert(a =~= a2 + seq!['/'] + seq![]);
        lemma_normal_parts_append(a2, n);
        lemma_normal_parts_append(a2, seq![]);
        assert(keep_part(seq![]) =~= seq![]);
        assert(normal_parts(a) =~= normal_parts(a2));
        assert(normal_parts(j) == normal_parts(a2) + keep_part(n));
        assert(j =~= a + n);
        assert(a.last() == '/');
        assert(a != "."@);
        lemma_head_extend(a, n);
        assert(path_components(j) =~= path_components(a) + keep_part(n));
    }
    assert(path_components(a).is_prefix_of(path_components(j)));
}

/// Every path lies inside itself.
pub proof fn lemma_starts_with_itself(p: Seq<char>)
    ensures
        path_starts_with(p, p),
{
    assert(path_components(p).subrange(0, path_components(p).len() as int) =~= path_components(p));
}

/// Setting the window mode and reading it back agree: `fullscreen_enabled` after
/// `set_fullscreen_enabled(b)` is `b`.
pub proof fn lemma_fullscreen_round_trip(enabled: bool)
    ensures
        eq_ignore_ascii_case(if enabled { "Fullscreen"@ } else { "Windowed"@ }, "fullscreen"@) == enabled,
{
    reveal_strlit("Fullscreen");
    reveal_strlit("Windowed");
    reveal_strlit("fullscreen");
    let a = crate::text::ascii_lowercase("Fullscreen"@);
    let b = crate::text::ascii_lowercase("fullscreen"@);
    if enabled {
        assert(crate::text::ascii_lower('F') == 'f');
        assert(a =~= b);
    } else {
        let w = crate::text::ascii_lowercase("Windowed"@);
        assert(w.len() != b.len());
    }
}

/// After a search, the settings name the provider searched: the picker position read from
/// the settings is that provider's.
pub proof fn lemma_search_source_sticks(p: Provider)
    ensures
        provider_index(
            if provider_label(p) == "GitLab"@ {
                Provider::GitLab
            } else if provider_label(p) == "Internet Archive"@ {
                Provider::InternetArchive
            } else {
                Provider::GitHub
            },
        ) == provider_index(p),
{
    lemma_provider_round_trip(p);
}

/// Reading a configuration back gives what was last written for that app; writing one app
/// leaves the others as they were; a forgotten app has none.
pub proof fn lemma_config_read_after_write(
    m: Map<Seq<char>, AppConfig>,
    name: Seq<char>,
    value: AppConfig,
    other: Seq<char>,
)
    requires
        other != name,
    ensures
        m.insert(name, value).contains_key(name),
        m.insert(name, value)[name] == value,
        m.insert(name, value).contains_key(other) == m.contains_key(other),
        m.contains_key(other) ==> m.insert(name, value)[other] == m[other],
        !m.remove(name).contains_key(name),
        m.remove(name).contains_key(other) == m.contains_key(other),
        m.contains_key(other) ==> m.remove(name)[other] == m[other],
{
}

} // verus!
