//! Talking to GitHub, GitLab, the Internet Archive and SteamGridDB: the requests to send,
//! and what the launcher makes of the replies. Sending the requests is left to the caller.
use vstd::prelude::*;
use vstd::utf8::{encode_utf8, decode_utf8, valid_utf8};
use crate::text::{chars_of, chars_equal_str, string_from_chars, extend_chars, extend_str,
    sub_chars, trim, trim_ws, trim_chars, ascii_lowercase, ascii_lowercase_chars, decimal,
    push_decimal, index_of, find_char, Trim};
use crate::ops::{path_extension, last_index_of};
use crate::state::{Provider, RepoItem, ReleaseOption, FileOption, ArtworkGame, ArtworkGrid,
    opt_string_view, clone_opt_string};

verus! {

// ---------------------------------------------------------------------------------------
// Percent-encoding

/// Bytes that a path segment keeps as they are: printable ASCII other than space and
/// `" # % / < > ? ` { }`.
pub open spec fn segment_safe(b: u8) -> bool {
    0x20 < b < 0x7f && b != 0x22 && b != 0x23 && b != 0x25 && b != 0x2f && b != 0x3c
        && b != 0x3e && b != 0x3f && b != 0x60 && b != 0x7b && b != 0x7d
}

pub open spec fn upper_hex(d: u8) -> char {
    if d < 10 {
        ((d + 0x30) as u8) as char
    } else {
        ((d - 10 + 0x41) as u8) as char
    }
}

/// One byte of a path segment: kept where safe, else `%XX` in upper-case hex.
pub open spec fn encode_byte(b: u8) -> Seq<char> {
    if segment_safe(b) {
        seq![b as char]
    } else {
        seq!['%', upper_hex(b / 16), upper_hex(b % 16)]
    }
}

pub open spec fn encode_bytes(bytes: Seq<u8>) -> Seq<char>
    decreases bytes.len(),
{
    if bytes.len() == 0 {
        seq![]
    } else {
        encode_bytes(bytes.drop_last()) + encode_byte(bytes.last())
    }
}

/// A text percent-encoded for use as one URL path segment: its UTF-8 bytes with every
/// unsafe byte written `%XX` (what `percent_encoding::utf8_percent_encode` does with the
/// launcher's path-segment set).
pub open spec fn encoded_segment(value: Seq<char>) -> Seq<char> {
    encode_bytes(encode_utf8(value))
}

fn hex_char(d: u8) -> (c: char)
    requires
        d < 16,
    ensures
        c == upper_hex(d),
{
    if d < 10 {
        (d + 0x30) as char
    } else {
        (d - 10 + 0x41) as char
    }
}

/// Percent-encodes a text for use as one URL path segment.
pub fn encode_segment(value: &str) -> (r: String)
    ensures
        r@ == encoded_segment(value@),
{
    let bytes = value.as_bytes();
    let mut out: Vec<char> = Vec::new();
    let mut i: usize = 0;
    while i < bytes.len()
        invariant
            i <= bytes@.len(),
            bytes@ == encode_utf8(value@),
            out@ == encode_bytes(bytes@.take(i as int)),
        decreases bytes.len() - i,
    {
        let b = bytes[i];
        let safe = 0x20 < b && b < 0x7f && b != 0x22 && b != 0x23 && b != 0x25 && b != 0x2f
            && b != 0x3c && b != 0x3e && b != 0x3f && b != 0x60 && b != 0x7b && b != 0x7d;
        if safe {
            out.push(b as char);
        } else {
            out.push('%');
            out.push(hex_char(b / 16));
            out.push(hex_char(b % 16));
        }
        i += 1;
        assert(bytes@.take(i as int).drop_last() =~= bytes@.take(i - 1));
        assert(out@ =~= encode_bytes(bytes@.take(i as int)));
    }
    assert(bytes@.take(bytes@.len() as int) =~= bytes@);
    string_from_chars(&out)
}

/// `percent_encoding::percent_decode`: each `%` followed by two hex digits becomes the
/// byte they spell; every other byte stays.
pub open spec fn percent_decode_bytes(b: Seq<u8>) -> Seq<u8>
    decreases b.len(),
{
    if b.len() >= 3 && b[0] == 0x25 && crate::theme::is_hex_digit(b[1]) && crate::theme::is_hex_digit(b[2]) {
        seq![(crate::theme::hex_value(b[1]) * 16 + crate::theme::hex_value(b[2])) as u8] + percent_decode_bytes(b.skip(3))
    } else if b.len() > 0 {
        seq![b[0]] + percent_decode_bytes(b.skip(1))
    } else {
        seq![]
    }
}

/// The text `percent_decode_str(s).decode_utf8_lossy()` gives for `s`.
pub uninterp spec fn percent_decoded_text(s: Seq<char>) -> Seq<char>;

/// Percent-decodes `s` and reads the bytes as UTF-8, replacing invalid sequences by
/// U+FFFD (`percent_encoding::percent_decode_str` and `decode_utf8_lossy`). Stated: the
/// result is a function of `s`; where the decoded bytes are valid UTF-8 it is their text.
/// The replacement of invalid sequences is not spelled out.
#[verifier::external_body]
fn percent_decode_lossy(s: &str) -> (r: String)
    ensures
        r@ == percent_decoded_text(s@),
        valid_utf8(percent_decode_bytes(encode_utf8(s@))) ==> r@ == decode_utf8(
            percent_decode_bytes(encode_utf8(s@)),
        ),
{
    percent_encoding::percent_decode_str(s).decode_utf8_lossy().into_owned()
}

// ---------------------------------------------------------------------------------------
// URLs

/// The serialization of `url::Url::parse_with_params(base, pairs)`, `None` where `base`
/// is not an absolute URL.
pub uninterp spec fn url_with_params(base: Seq<char>, pairs: Seq<(Seq<char>, Seq<char>)>) -> Option<Seq<char>>;

/// Parses `base` as an absolute URL and appends the query pairs, form-urlencoded
/// (`url::Url::parse_with_params`). Stated: the result is a function of the arguments.
#[verifier::external_body]
fn build_url(base: &str, pairs: &Vec<(String, String)>) -> (r: Option<String>)
    ensures
        crate::state::opt_string_view(r) == url_with_params(base@, pairs.deep_view()),
{
    match url::Url::parse_with_params(base, pairs.iter()) {
        Ok(u) => Some(u.as_str().to_owned()),
        Err(_) => None,
    }
}

/// The path of `url::Url::parse(s)`, `None` where `s` is not an absolute URL.
pub uninterp spec fn parsed_url_path(s: Seq<char>) -> Option<Seq<char>>;

/// Parses `s` as an absolute URL and gives its path, percent-encoded as in the URL
/// (`url::Url::parse`, `Url::path`). Stated: the result is a function of `s`.
#[verifier::external_body]
fn url_path(s: &str) -> (r: Option<String>)
    ensures
        crate::state::opt_string_view(r) == parsed_url_path(s@),
{
    match url::Url::parse(s) {
        Ok(u) => Some(u.path().to_owned()),
        Err(_) => None,
    }
}

/// The text after the last `/` (all of `s` where it has none).
pub open spec fn after_last_slash(s: Seq<char>) -> Seq<char> {
    match last_index_of(s, '/') {
        Some(i) => s.skip(i + 1),
        None => s,
    }
}

/// The last segment of a URL, still percent-encoded: the last path segment of an absolute
/// URL (`download.bin` for one without a hierarchical path); for other text, what follows
/// the last `/` before any `?`.
pub open spec fn raw_url_name(url: Seq<char>) -> Seq<char> {
    match parsed_url_path(url) {
        Some(path) => if path.len() > 0 && path[0] == '/' {
            after_last_slash(path.drop_first())
        } else {
            "download.bin"@
        },
        None => match index_of(url, '?') {
            Some(q) => after_last_slash(url.take(q)),
            None => after_last_slash(url),
        },
    }
}

/// The name a downloaded file is saved under: the URL's last segment, percent-decoded and
/// trimmed, or `download.bin` where nothing is left.
pub open spec fn url_file_name(url: Seq<char>) -> Seq<char> {
    let name = trim_ws(percent_decoded_text(raw_url_name(url)));
    if name.len() == 0 {
        "download.bin"@
    } else {
        name
    }
}

fn after_last_slash_chars(v: &Vec<char>) -> (r: Vec<char>)
    ensures
        r@ == after_last_slash(v@),
{
    let mut i = v.len();
    while i > 0 && v[i - 1] != '/'
        invariant
            i <= v.len(),
            forall|k: int| i <= k < v.len() ==> v@[k] != '/',
        decreases i,
    {
        i -= 1;
    }
    proof {
        crate::ops::lemma_last_index_of_pub(v@, '/', i - 1);
    }
    if i == 0 {
        v.clone()
    } else {
        sub_chars(v, i, v.len())
    }
}

/// The name a file downloaded from `url` is saved under.
pub fn file_name_from_url(url: &str) -> (r: String)
    ensures
        r@ == url_file_name(url@),
{
    let raw = match url_path(url) {
        Some(path) => {
            let p = chars_of(path.as_str());
            if p.len() > 0 && p[0] == '/' {
                let rest = sub_chars(&p, 1, p.len());
                assert(rest@ =~= p@.drop_first());
                after_last_slash_chars(&rest)
            } else {
                chars_of("download.bin")
            }
        },
        None => {
            let u = chars_of(url);
            let q = find_char(&u, 0, '?');
            assert(u@.skip(0) =~= u@);
            let head = sub_chars(&u, 0, q);
            assert(q < u.len() ==> head@ =~= u@.take(q as int));
            assert(q == u.len() ==> head@ =~= u@);
            after_last_slash_chars(&head)
        },
    };
    let raw_s = string_from_chars(&raw);
    let decoded = percent_decode_lossy(raw_s.as_str());
    let d = chars_of(decoded.as_str());
    let name = trim_chars(&d, Trim::Whitespace);
    if name.len() == 0 {
        "download.bin".to_owned()
    } else {
        string_from_chars(&name)
    }
}

/// The image extension artwork from `url` is stored with: the lower-cased extension of
/// the URL's file name where it is a known image type (`jpeg` counting as `jpg`), else
/// `png`.
pub open spec fn image_extension_spec(url: Seq<char>) -> Seq<char> {
    match path_extension(url_file_name(url)) {
        Some(e) => {
            let l = ascii_lowercase(e);
            if l == "png"@ {
                "png"@
            } else if l == "jpg"@ || l == "jpeg"@ {
                "jpg"@
            } else if l == "webp"@ {
                "webp"@
            } else if l == "gif"@ {
                "gif"@
            } else if l == "bmp"@ {
                "bmp"@
            } else {
                "png"@
            }
        },
        None => "png"@,
    }
}

/// The extension an image file named `name` is stored under: its own extension in lower
/// case where that is a known image type (png, jpg, jpeg, webp, gif or bmp, in any letter
/// case; jpeg is written jpg), png for any other name.
pub open spec fn stored_image_extension(name: Seq<char>) -> Seq<char> {
    match path_extension(name) {
        Some(e) => {
            let l = ascii_lowercase(e);
            if l == "jpeg"@ {
                "jpg"@
            } else if l == "png"@ || l == "jpg"@ || l == "webp"@ || l == "gif"@ || l == "bmp"@ {
                l
            } else {
                "png"@
            }
        },
        None => "png"@,
    }
}

/// Artwork keeps the image type its URL names: the stored extension is the URL file
/// name's own extension, lower-cased, where it is a known image type (a `.png` URL gives
/// `png`, a `.JPEG` one `jpg`), and png only for other names.
pub proof fn lemma_image_extension_kept(url: Seq<char>)
    ensures
        image_extension_spec(url) == stored_image_extension(url_file_name(url)),
{
    reveal_strlit("png");
    reveal_strlit("jpg");
    reveal_strlit("jpeg");
    reveal_strlit("webp");
    reveal_strlit("gif");
    reveal_strlit("bmp");
}

/// The image extension artwork downloaded from `url` is stored with.
pub fn image_extension_from_url(url: &str) -> (r: &'static str)
    ensures
        r@ == image_extension_spec(url@),
        r@ == stored_image_extension(url_file_name(url@)),
{
    proof {
        lemma_image_extension_kept(url@);
    }
    let name = file_name_from_url(url);
    match crate::ops::extension_of(name.as_str()) {
        Some(e) => {
            let l = ascii_lowercase_chars(&chars_of(e.as_str()));
            if chars_equal_str(&l, "png") {
                "png"
            } else if chars_equal_str(&l, "jpg") || chars_equal_str(&l, "jpeg") {
                "jpg"
            } else if chars_equal_str(&l, "webp") {
                "webp"
            } else if chars_equal_str(&l, "gif") {
                "gif"
            } else if chars_equal_str(&l, "bmp") {
                "bmp"
            } else {
                "png"
            }
        },
        None => "png",
    }
}

// ---------------------------------------------------------------------------------------
// Requests

/// A GET request to send.
pub struct Request {
    pub url: String,
    /// `(name, value)` header pairs.
    pub headers: Vec<(String, String)>,
}

/// Why a request could not be made or its reply was refused.
#[derive(Debug, PartialEq, Eq, Structural)]
pub enum NetError {
    /// The URL could not be built.
    InvalidUrl,
    /// A GitLab repository without its project id.
    MissingProjectId,
    /// An Internet Archive item without its identifier.
    MissingIdentifier,
    /// SteamGridDB reported failure and sent nothing.
    SteamGridDbFailed,
}

/// How many results a search asks for.
pub open spec fn search_limit() -> Seq<char> {
    "10"@
}

pub open spec fn search_base(p: Provider) -> Seq<char> {
    match p {
        Provider::GitHub => "https://api.github.com/search/repositories"@,
        Provider::GitLab => "https://gitlab.com/api/v4/projects"@,
        Provider::InternetArchive => "https://archive.org/advancedsearch.php"@,
    }
}

pub open spec fn search_pairs(p: Provider, query: Seq<char>) -> Seq<(Seq<char>, Seq<char>)> {
    match p {
        Provider::GitHub => seq![("q"@, query), ("per_page"@, search_limit())],
        Provider::GitLab => seq![("search"@, query), ("per_page"@, search_limit())],
        Provider::InternetArchive => seq![
            ("q"@, query),
            ("fl[]"@, "identifier"@),
            ("fl[]"@, "title"@),
            ("fl[]"@, "creator"@),
            ("fl[]"@, "description"@),
            ("rows"@, search_limit()),
            ("output"@, "json"@),
        ],
    }
}

/// The `Accept` header GitHub's API asks for.
pub open spec fn github_headers() -> Seq<(Seq<char>, Seq<char>)> {
    seq![("Accept"@, "application/vnd.github+json"@)]
}

pub open spec fn search_headers(p: Provider) -> Seq<(Seq<char>, Seq<char>)> {
    match p {
        Provider::GitHub => github_headers(),
        _ => seq![],
    }
}

/// The request is `url` with `headers`.
pub open spec fn request_is(r: Request, url: Seq<char>, headers: Seq<(Seq<char>, Seq<char>)>) -> bool {
    r.url@ == url && r.headers.deep_view() == headers
}

fn pair(a: &str, b: &str) -> (r: (String, String))
    ensures
        r.0@ == a@,
        r.1@ == b@,
{
    (a.to_owned(), b.to_owned())
}

fn github_accept() -> (r: Vec<(String, String)>)
    ensures
        r.deep_view() == github_headers(),
{
    let mut h: Vec<(String, String)> = Vec::new();
    h.push(pair("Accept", "application/vnd.github+json"));
    assert(h.deep_view() =~= github_headers());
    h
}

/// The search request for `query` on `provider`.
pub fn search_request(provider: Provider, query: &str) -> (r: Result<Request, NetError>)
    ensures
        match url_with_params(search_base(provider), search_pairs(provider, query@)) {
            Some(u) => r matches Ok(req) && request_is(req, u, search_headers(provider)),
            None => r == Err::<Request, NetError>(NetError::InvalidUrl),
        },
{
    let mut pairs: Vec<(String, String)> = Vec::new();
    let base = match provider {
        Provider::GitHub => {
            pairs.push(pair("q", query));
            pairs.push(pair("per_page", "10"));
            "https://api.github.com/search/repositories"
        },
        Provider::GitLab => {
            pairs.push(pair("search", query));
            pairs.push(pair("per_page", "10"));
            "https://gitlab.com/api/v4/projects"
        },
        Provider::InternetArchive => {
            pairs.push(pair("q", query));
            pairs.push(pair("fl[]", "identifier"));
            pairs.push(pair("fl[]", "title"));
            pairs.push(pair("fl[]", "creator"));
            pairs.push(pair("fl[]", "description"));
            pairs.push(pair("rows", "10"));
            pairs.push(pair("output", "json"));
            "https://archive.org/advancedsearch.php"
        },
    };
    assert(pairs.deep_view() =~= search_pairs(provider, query@));
    let headers = match provider {
        Provider::GitHub => github_accept(),
        _ => {
            let h: Vec<(String, String)> = Vec::new();
            assert(h.deep_view() =~= search_headers(provider));
            h
        },
    };
    match build_url(base, &pairs) {
        Some(url) => Ok(Request { url, headers }),
        None => Err(NetError::InvalidUrl),
    }
}

/// The releases request for a repository.
pub open spec fn releases_url(repo: RepoItem) -> Option<Seq<char>> {
    match repo.provider {
        Provider::GitHub => Some(
            "https://api.github.com/repos/"@ + encoded_segment(repo.owner@) + "/"@ + encoded_segment(
                repo.name@,
            ) + "/releases"@,
        ),
        Provider::GitLab => match repo.project_id {
            Some(id) => Some("https://gitlab.com/api/v4/projects/"@ + decimal(id as nat) + "/releases"@),
            None => None,
        },
        Provider::InternetArchive => match repo.identifier {
            Some(ident) => Some("https://archive.org/metadata/"@ + encoded_segment(ident@)),
            None => None,
        },
    }
}

/// The request listing a repository's releases (for an archive item, its files). A GitLab
/// repository needs its project id and an archive item its identifier.
pub fn releases_request(repo: &RepoItem) -> (r: Result<Request, NetError>)
    ensures
        match releases_url(*repo) {
            Some(u) => r matches Ok(req) && request_is(
                req,
                u,
                if repo.provider == Provider::GitHub { github_headers() } else { seq![] },
            ),
            None => r == Err::<Request, NetError>(if repo.provider == Provider::GitLab {
                NetError::MissingProjectId
            } else {
                NetError::MissingIdentifier
            }),
        },
{
    let mut url: Vec<char> = Vec::new();
    let no_headers: Vec<(String, String)> = Vec::new();
    assert(no_headers.deep_view() =~= seq![]);
    match repo.provider {
        Provider::GitHub => {
            extend_str(&mut url, "https://api.github.com/repos/");
            extend_str(&mut url, encode_segment(repo.owner.as_str()).as_str());
            extend_str(&mut url, "/");
            extend_str(&mut url, encode_segment(repo.name.as_str()).as_str());
            extend_str(&mut url, "/releases");
            Ok(Request { url: string_from_chars(&url), headers: github_accept() })
        },
        Provider::GitLab => match repo.project_id {
            Some(id) => {
                extend_str(&mut url, "https://gitlab.com/api/v4/projects/");
                push_decimal(&mut url, id);
                extend_str(&mut url, "/releases");
                Ok(Request { url: string_from_chars(&url), headers: no_headers })
            },
            None => Err(NetError::MissingProjectId),
        },
        Provider::InternetArchive => match &repo.identifier {
            Some(ident) => {
                extend_str(&mut url, "https://archive.org/metadata/");
                extend_str(&mut url, encode_segment(ident.as_str()).as_str());
                Ok(Request { url: string_from_chars(&url), headers: no_headers })
            },
            None => Err(NetError::MissingIdentifier),
        },
    }
}

/// The `Authorization` value for a SteamGridDB API key.
pub fn bearer(api_key: &str) -> (r: String)
    ensures
        r@ == "Bearer "@ + api_key@,
{
    let mut v = chars_of("Bearer ");
    extend_str(&mut v, api_key);
    string_from_chars(&v)
}

pub open spec fn sgdb_headers(api_key: Seq<char>) -> Seq<(Seq<char>, Seq<char>)> {
    seq![("Authorization"@, "Bearer "@ + api_key)]
}

fn sgdb_auth(api_key: &str) -> (r: Vec<(String, String)>)
    ensures
        r.deep_view() == sgdb_headers(api_key@),
{
    let mut h: Vec<(String, String)> = Vec::new();
    h.push(("Authorization".to_owned(), bearer(api_key)));
    assert(h.deep_view() =~= sgdb_headers(api_key@));
    h
}

/// The SteamGridDB game search for `query` (trimmed).
pub fn artwork_search_request(api_key: &str, query: &str) -> (r: Request)
    ensures
        request_is(
            r,
            "https://www.steamgriddb.com/api/v2/search/autocomplete/"@ + encoded_segment(trim_ws(query@)),
            sgdb_headers(api_key@),
        ),
{
    let q = trim_chars(&chars_of(query), Trim::Whitespace);
    let mut url = chars_of("https://www.steamgriddb.com/api/v2/search/autocomplete/");
    extend_str(&mut url, encode_segment(string_from_chars(&q).as_str()).as_str());
    Request { url: string_from_chars(&url), headers: sgdb_auth(api_key) }
}

/// The SteamGridDB request for the grid images of game `game_id`.
pub fn artwork_grids_request(api_key: &str, game_id: usize) -> (r: Request)
    ensures
        request_is(
            r,
            "https://www.steamgriddb.com/api/v2/grids/game/"@ + decimal(game_id as nat),
            sgdb_headers(api_key@),
        ),
{
    let mut url = chars_of("https://www.steamgriddb.com/api/v2/grids/game/");
    push_decimal(&mut url, game_id as u64);
    Request { url: string_from_chars(&url), headers: sgdb_auth(api_key) }
}

// ---------------------------------------------------------------------------------------
// Replies

pub struct GitHubOwner {
    pub login: String,
}

pub struct GitHubRepo {
    pub name: String,
    pub description: Option<String>,
    pub owner: GitHubOwner,
}

pub struct GitHubSearchResponse {
    pub items: Vec<GitHubRepo>,
}

pub struct GitHubAsset {
    pub name: String,
    pub browser_download_url: String,
}

pub struct GitHubRelease {
    pub tag_name: String,
    pub prerelease: bool,
    pub draft: bool,
    pub assets: Vec<GitHubAsset>,
}

pub struct GitLabNamespace {
    pub name: Option<String>,
    pub full_path: Option<String>,
}

pub struct GitLabProject {
    pub id: u64,
    pub name: String,
    pub description: Option<String>,
    pub namespace: Option<GitLabNamespace>,
}

pub struct GitLabSource {
    pub format: Option<String>,
    pub url: String,
}

pub struct GitLabLink {
    pub name: Option<String>,
    pub url: String,
}

pub struct GitLabAssets {
    pub sources: Vec<GitLabSource>,
    pub links: Vec<GitLabLink>,
}

pub struct GitLabRelease {
    pub tag_name: Option<String>,
    pub name: Option<String>,
    pub assets: GitLabAssets,
}

/// A JSON value of an archive record, as far as the launcher reads it: a string, an array
/// (its elements that are strings, `None` for the others), or any other value in its JSON
/// text.
pub enum JsonText {
    Text(String),
    Items(Vec<Option<String>>),
    Other(String),
}

pub struct InternetArchiveDoc {
    pub identifier: String,
    pub title: Option<String>,
    pub creator: Option<JsonText>,
    pub description: Option<JsonText>,
}

pub struct InternetArchiveSearchResponse {
    pub docs: Vec<InternetArchiveDoc>,
}

pub struct InternetArchiveSearch {
    pub response: InternetArchiveSearchResponse,
}

pub struct InternetArchiveFile {
    pub name: String,
    pub format: Option<String>,
}

pub struct InternetArchiveMetadata {
    pub files: Vec<InternetArchiveFile>,
}

/// A SteamGridDB list reply.
pub struct SgdbList<T> {
    pub success: bool,
    pub data: Vec<T>,
}

pub struct SgdbGame {
    pub id: usize,
    pub name: String,
    pub verified: bool,
    pub release_date: Option<u64>,
}

pub struct SgdbGrid {
    pub id: u32,
    pub url: String,
    pub thumb: String,
    pub width: u32,
    pub height: u32,
}

/// The reply to a search, by provider.
pub enum SearchResponse {
    GitHub(GitHubSearchResponse),
    GitLab(Vec<GitLabProject>),
    InternetArchive(InternetArchiveSearch),
}

/// The reply to a releases request, by provider.
pub enum ReleasesResponse {
    GitHub(Vec<GitHubRelease>),
    GitLab(Vec<GitLabRelease>),
    InternetArchive(InternetArchiveMetadata),
}

// ---------------------------------------------------------------------------------------
// Search results

pub open spec fn no_description() -> Seq<char> {
    "No description available."@
}

/// A description, or the placeholder where it is missing or blank.
pub open spec fn description_text(d: Option<String>) -> Seq<char> {
    match d {
        Some(t) => if trim_ws(t@).len() > 0 {
            t@
        } else {
            no_description()
        },
        None => no_description(),
    }
}

/// A description, or the placeholder where it is missing or blank.
pub fn unwrap_desc(description: &Option<String>) -> (r: String)
    ensures
        r@ == description_text(*description),
{
    match description {
        Some(t) => {
            let v = chars_of(t.as_str());
            let tv = trim_chars(&v, Trim::Whitespace);
            if tv.len() > 0 {
                t.clone()
            } else {
                "No description available.".to_owned()
            }
        },
        None => "No description available.".to_owned(),
    }
}

pub open spec fn github_item(it: RepoItem, r: GitHubRepo) -> bool {
    &&& it.provider == Provider::GitHub
    &&& it.name@ == r.name@
    &&& it.owner@ == r.owner.login@
    &&& it.description@ == description_text(r.description)
    &&& it.project_id is None
    &&& it.identifier is None
}

/// The owner shown for a GitLab project: the namespace's name, else its full path, else
/// "GitLab".
pub open spec fn gitlab_owner(ns: Option<GitLabNamespace>) -> Seq<char> {
    match ns {
        Some(n) => match n.name {
            Some(x) => x@,
            None => match n.full_path {
                Some(p) => p@,
                None => "GitLab"@,
            },
        },
        None => "GitLab"@,
    }
}

pub open spec fn gitlab_item(it: RepoItem, p: GitLabProject) -> bool {
    &&& it.provider == Provider::GitLab
    &&& it.name@ == p.name@
    &&& it.owner@ == gitlab_owner(p.namespace)
    &&& it.description@ == description_text(p.description)
    &&& it.project_id == Some(p.id)
    &&& it.identifier is None
}

/// `s` with line breaks turned into spaces.
pub open spec fn one_line(s: Seq<char>) -> Seq<char> {
    s.map_values(|c: char| if c == '\n' || c == '\r' { ' ' } else { c })
}

/// The texts among array elements.
pub open spec fn present_texts(xs: Seq<Option<String>>) -> Seq<Seq<char>>
    decreases xs.len(),
{
    if xs.len() == 0 {
        seq![]
    } else {
        present_texts(xs.drop_last()) + match xs.last() {
            Some(t) => seq![t@],
            None => seq![],
        }
    }
}

/// Texts joined with a separator.
pub open spec fn join(list: Seq<Seq<char>>, sep: Seq<char>) -> Seq<char>
    decreases list.len(),
{
    if list.len() == 0 {
        seq![]
    } else if list.len() == 1 {
        list[0]
    } else {
        join(list.drop_last(), sep) + sep + list.last()
    }
}

/// A JSON value as one line of text: a string as it is, an array's strings joined by
/// ", ", any other value in JSON; line breaks become spaces, the result is trimmed, and
/// nothing is left of an empty result.
pub open spec fn single_line(v: Option<JsonText>) -> Option<Seq<char>> {
    match v {
        Some(j) => {
            let raw = match j {
                JsonText::Text(t) => t@,
                JsonText::Items(xs) => join(present_texts(xs@), ", "@),
                JsonText::Other(t) => t@,
            };
            let cleaned = trim_ws(one_line(raw));
            if cleaned.len() == 0 {
                None
            } else {
                Some(cleaned)
            }
        },
        None => None,
    }
}

fn join_present(xs: &Vec<Option<String>>) -> (r: Vec<char>)
    ensures
        r@ == join(present_texts(xs@), ", "@),
{
    let mut r: Vec<char> = Vec::new();
    let mut any = false;
    let mut i: usize = 0;
    while i < xs.len()
        invariant
            i <= xs.len(),
            any == (present_texts(xs@.take(i as int)).len() > 0),
            r@ == join(present_texts(xs@.take(i as int)), ", "@),
        decreases xs.len() - i,
    {
        let ghost before = present_texts(xs@.take(i as int));
        assert(xs@.take(i + 1).drop_last() =~= xs@.take(i as int));
        match &xs[i] {
            Some(t) => {
                if any {
                    extend_str(&mut r, ", ");
                }
                extend_str(&mut r, t.as_str());
                let ghost after = before.push(t@);
                assert(present_texts(xs@.take(i + 1)) =~= after);
                assert(after.drop_last() =~= before);
                if !any {
                    assert(r@ =~= join(after, ", "@));
                }
                any = true;
            },
            None => {
                assert(present_texts(xs@.take(i + 1)) =~= before);
            },
        }
        i += 1;
    }
    assert(xs@.take(xs.len() as int) =~= xs@);
    r
}

/// A JSON value as one line of text, or `None` where nothing is left.
pub fn value_to_single_line(value: &Option<JsonText>) -> (r: Option<String>)
    ensures
        opt_string_view(r) == single_line(*value),
{
    let raw: Vec<char> = match value {
        Some(JsonText::Text(t)) => chars_of(t.as_str()),
        Some(JsonText::Items(xs)) => join_present(xs),
        Some(JsonText::Other(t)) => chars_of(t.as_str()),
        None => {
            return None;
        },
    };
    let mut flat: Vec<char> = Vec::new();
    let mut i: usize = 0;
    while i < raw.len()
        invariant
            i <= raw.len(),
            flat@ == one_line(raw@.take(i as int)),
        decreases raw.len() - i,
    {
        let c = raw[i];
        flat.push(if c == '\n' || c == '\r' { ' ' } else { c });
        i += 1;
        assert(flat@ =~= one_line(raw@.take(i as int)));
    }
    assert(raw@.take(raw.len() as int) =~= raw@);
    let cleaned = trim_chars(&flat, Trim::Whitespace);
    if cleaned.len() == 0 {
        None
    } else {
        Some(string_from_chars(&cleaned))
    }
}

pub open spec fn ia_item(it: RepoItem, d: InternetArchiveDoc) -> bool {
    &&& it.provider == Provider::InternetArchive
    &&& it.name@ == (match d.title {
        Some(t) => t@,
        None => d.identifier@,
    })
    &&& it.owner@ == (match single_line(d.creator) {
        Some(t) => t,
        None => "Internet Archive"@,
    })
    &&& it.description@ == (match single_line(d.description) {
        Some(t) => t,
        None => no_description(),
    })
    &&& it.project_id is None
    &&& it.identifier matches Some(i) && i@ == d.identifier@
}

fn github_items(items: &Vec<GitHubRepo>) -> (r: Vec<RepoItem>)
    ensures
        r.len() == items.len(),
        forall|i: int| 0 <= i < r.len() ==> github_item(#[trigger] r@[i], items@[i]),
{
    let mut r: Vec<RepoItem> = Vec::new();
    let mut i: usize = 0;
    while i < items.len()
        invariant
            i <= items.len(),
            r.len() == i,
            forall|k: int| 0 <= k < i ==> github_item(#[trigger] r@[k], items@[k]),
        decreases items.len() - i,
    {
        let repo = &items[i];
        r.push(
            RepoItem {
                provider: Provider::GitHub,
                name: repo.name.clone(),
                owner: repo.owner.login.clone(),
                description: unwrap_desc(&repo.description),
                project_id: None,
                identifier: None,
            },
        );
        i += 1;
    }
    r
}

fn gitlab_items(projects: &Vec<GitLabProject>) -> (r: Vec<RepoItem>)
    ensures
        r.len() == projects.len(),
        forall|i: int| 0 <= i < r.len() ==> gitlab_item(#[trigger] r@[i], projects@[i]),
{
    let mut r: Vec<RepoItem> = Vec::new();
    let mut i: usize = 0;
    while i < projects.len()
        invariant
            i <= projects.len(),
            r.len() == i,
            forall|k: int| 0 <= k < i ==> gitlab_item(#[trigger] r@[k], projects@[k]),
        decreases projects.len() - i,
    {
        let project = &projects[i];
        let owner = match &project.namespace {
            Some(ns) => match &ns.name {
                Some(n) => n.clone(),
                None => match &ns.full_path {
                    Some(p) => p.clone(),
                    None => "GitLab".to_owned(),
                },
            },
            None => "GitLab".to_owned(),
        };
        r.push(
            RepoItem {
                provider: Provider::GitLab,
                name: project.name.clone(),
                owner,
                description: unwrap_desc(&project.description),
                project_id: Some(project.id),
                identifier: None,
            },
        );
        i += 1;
    }
    r
}

fn ia_items(docs: &Vec<InternetArchiveDoc>) -> (r: Vec<RepoItem>)
    ensures
        r.len() == docs.len(),
        forall|i: int| 0 <= i < r.len() ==> ia_item(#[trigger] r@[i], docs@[i]),
{
    let mut r: Vec<RepoItem> = Vec::new();
    let mut i: usize = 0;
    while i < docs.len()
        invariant
            i <= docs.len(),
            r.len() == i,
            forall|k: int| 0 <= k < i ==> ia_item(#[trigger] r@[k], docs@[k]),
        decreases docs.len() - i,
    {
        let doc = &docs[i];
        let name = match &doc.title {
            Some(t) => t.clone(),
            None => doc.identifier.clone(),
        };
        let owner = match value_to_single_line(&doc.creator) {
            Some(t) => t,
            None => "Internet Archive".to_owned(),
        };
        let description = match value_to_single_line(&doc.description) {
            Some(t) => t,
            None => "No description available.".to_owned(),
        };
        r.push(
            RepoItem {
                provider: Provider::InternetArchive,
                name,
                owner,
                description,
                project_id: None,
                identifier: Some(doc.identifier.clone()),
            },
        );
        i += 1;
    }
    r
}

/// What a search reply lists: one item per repository (or archive item), in reply order.
pub open spec fn search_results(response: SearchResponse, r: Seq<RepoItem>) -> bool {
    match response {
        SearchResponse::GitHub(g) => r.len() == g.items@.len() && forall|i: int|
            0 <= i < r.len() ==> github_item(#[trigger] r[i], g.items@[i]),
        SearchResponse::GitLab(ps) => r.len() == ps@.len() && forall|i: int|
            0 <= i < r.len() ==> gitlab_item(#[trigger] r[i], ps@[i]),
        SearchResponse::InternetArchive(a) => r.len() == a.response.docs@.len() && forall|i: int|
            0 <= i < r.len() ==> ia_item(#[trigger] r[i], a.response.docs@[i]),
    }
}

/// An Internet Archive result is named by its item's title where the item has one, and
/// by its identifier only where it has none.
pub proof fn lemma_archive_items_named_by_title(response: SearchResponse, r: Seq<RepoItem>)
    requires
        search_results(response, r),
    ensures
        response matches SearchResponse::InternetArchive(a) ==> forall|i: int| 0 <= i < r.len() ==> {
            let d = a.response.docs@[i];
            &&& d.title matches Some(t) ==> (#[trigger] r[i]).name@ == t@
            &&& d.title is None ==> r[i].name@ == d.identifier@
        },
{
}

/// The repositories a search reply lists.
pub fn search_repositories(response: &SearchResponse) -> (r: Vec<RepoItem>)
    ensures
        search_results(*response, r@),
        response matches SearchResponse::InternetArchive(a) ==> forall|i: int| 0 <= i < r@.len() ==> {
            let d = a.response.docs@[i];
            &&& d.title matches Some(t) ==> (#[trigger] r@[i]).name@ == t@
            &&& d.title is None ==> r@[i].name@ == d.identifier@
            &&& r@[i].provider == Provider::InternetArchive
            &&& r@[i].identifier matches Some(x) && x@ == d.identifier@
        },
        response matches SearchResponse::GitHub(g) ==> forall|i: int| 0 <= i < r@.len() ==> {
            let repo = g.items@[i];
            &&& (#[trigger] r@[i]).name@ == repo.name@
            &&& r@[i].owner@ == repo.owner.login@
            &&& r@[i].provider == Provider::GitHub
        },
        response matches SearchResponse::GitLab(ps) ==> forall|i: int| 0 <= i < r@.len() ==> {
            let p = ps@[i];
            &&& (#[trigger] r@[i]).name@ == p.name@
            &&& r@[i].project_id == Some(p.id)
            &&& r@[i].provider == Provider::GitLab
        },
{
    match response {
        SearchResponse::GitHub(g) => github_items(&g.items),
        SearchResponse::GitLab(ps) => gitlab_items(ps),
        SearchResponse::InternetArchive(a) => ia_items(&a.response.docs),
    }
}

// ---------------------------------------------------------------------------------------
// Releases

/// `"{n} file(s)"`.
pub open spec fn file_count(n: nat) -> Seq<char> {
    decimal(n) + " file(s)"@
}

pub open spec fn file_is(f: FileOption, name: Seq<char>, url: Seq<char>) -> bool {
    f.name@ == name && f.url@ == url
}

/// The releases that are not drafts, in order.
pub open spec fn published(rs: Seq<GitHubRelease>) -> Seq<GitHubRelease>
    decreases rs.len(),
{
    if rs.len() == 0 {
        seq![]
    } else {
        published(rs.drop_last()) + if rs.last().draft {
            seq![]
        } else {
            seq![rs.last()]
        }
    }
}

/// A GitHub release: titled by its tag, its assets as files, and "N file(s), release" or
/// "N file(s), pre-release".
pub open spec fn github_release(o: ReleaseOption, r: GitHubRelease) -> bool {
    &&& o.title@ == r.tag_name@
    &&& o.files@.len() == r.assets@.len()
    &&& forall|k: int| 0 <= k < o.files@.len() ==> file_is(#[trigger] o.files@[k], r.assets@[k].name@, r.assets@[k].browser_download_url@)
    &&& o.subtitle@ == file_count(r.assets@.len()) + ", "@ + (if r.prerelease {
        "pre-release"@
    } else {
        "release"@
    })
}

/// The name of a GitLab source archive: its format, or "source archive".
pub open spec fn source_name(s: GitLabSource) -> Seq<char> {
    match s.format {
        Some(f) => f@,
        None => "source archive"@,
    }
}

/// The name of a GitLab release link: its name, or the file name of its URL.
pub open spec fn link_name(l: GitLabLink) -> Seq<char> {
    match l.name {
        Some(n) => n@,
        None => url_file_name(l.url@),
    }
}

/// A GitLab release: titled by its tag, else its name, else "Release"; its source archives
/// then its links as files; "N file(s)".
pub open spec fn gitlab_release(o: ReleaseOption, r: GitLabRelease) -> bool {
    let ns = r.assets.sources@.len();
    let nl = r.assets.links@.len();
    &&& o.title@ == (match r.tag_name {
        Some(t) => t@,
        None => match r.name {
            Some(n) => n@,
            None => "Release"@,
        },
    })
    &&& o.files@.len() == ns + nl
    &&& forall|k: int| 0 <= k < ns ==> file_is(#[trigger] o.files@[k], source_name(r.assets.sources@[k]), r.assets.sources@[k].url@)
    &&& forall|k: int| ns <= k < ns + nl ==> file_is(#[trigger] o.files@[k], link_name(r.assets.links@[k - ns]), r.assets.links@[k - ns].url@)
    &&& o.subtitle@ == file_count(ns + nl)
}

/// Archive files that are not listed: metadata, text and item images.
pub open spec fn hidden_format(f: Option<String>) -> bool {
    match f {
        Some(x) => x@ == "Metadata"@ || x@ == "Text"@ || x@ == "Item Image"@,
        None => false,
    }
}

/// The archive files that are listed, in order.
pub open spec fn listed_files(fs: Seq<InternetArchiveFile>) -> Seq<InternetArchiveFile>
    decreases fs.len(),
{
    if fs.len() == 0 {
        seq![]
    } else {
        listed_files(fs.drop_last()) + if hidden_format(fs.last().format) {
            seq![]
        } else {
            seq![fs.last()]
        }
    }
}

/// A file path inside an archive item with each `/`-separated part percent-encoded.
pub open spec fn encoded_path(s: Seq<char>) -> Seq<char>
    decreases s.len(),
{
    match index_of(s, '/') {
        Some(i) => {
            proof {
                crate::text::lemma_index_of_found(s, '/');
            }
            encoded_segment(s.take(i)) + "/"@ + encoded_path(s.skip(i + 1))
        },
        None => encoded_segment(s),
    }
}

/// The download URL of file `name` of archive item `identifier`.
pub open spec fn archive_download_url(identifier: Seq<char>, name: Seq<char>) -> Seq<char> {
    "https://archive.org/download/"@ + identifier + "/"@ + encoded_path(name)
}

/// The single release of an archive item: its listed files, "N downloadable file(s)".
pub open spec fn archive_release(o: ReleaseOption, identifier: Seq<char>, files: Seq<InternetArchiveFile>) -> bool {
    let shown = listed_files(files);
    &&& o.title@ == "Internet Archive files"@
    &&& o.files@.len() == shown.len()
    &&& forall|k: int| 0 <= k < shown.len() ==> file_is(#[trigger] o.files@[k], shown[k].name@, archive_download_url(identifier, shown[k].name@))
    &&& o.subtitle@ == decimal(shown.len()) + " downloadable file(s)"@
}

fn push_count(out: &mut Vec<char>, n: usize)
    ensures
        final(out)@ == old(out)@ + decimal(n as nat),
{
    push_decimal(out, n as u64);
}

fn github_release_option(r: &GitHubRelease) -> (o: ReleaseOption)
    ensures
        github_release(o, *r),
{
    let mut files: Vec<FileOption> = Vec::new();
    let mut k: usize = 0;
    while k < r.assets.len()
        invariant
            k <= r.assets@.len(),
            files@.len() == k,
            forall|j: int| 0 <= j < k ==> file_is(#[trigger] files@[j], r.assets@[j].name@, r.assets@[j].browser_download_url@),
        decreases r.assets.len() - k,
    {
        files.push(FileOption { name: r.assets[k].name.clone(), url: r.assets[k].browser_download_url.clone() });
        k += 1;
    }
    let mut subtitle: Vec<char> = Vec::new();
    push_count(&mut subtitle, files.len());
    extend_str(&mut subtitle, " file(s), ");
    extend_str(&mut subtitle, if r.prerelease { "pre-release" } else { "release" });
    assert(subtitle@ =~= file_count(r.assets@.len()) + ", "@ + (if r.prerelease {
        "pre-release"@
    } else {
        "release"@
    })) by {
        reveal_strlit(" file(s), ");
        reveal_strlit(" file(s)");
        reveal_strlit(", ");
    }
    ReleaseOption { title: r.tag_name.clone(), subtitle: string_from_chars(&subtitle), files }
}

fn github_releases(rs: &Vec<GitHubRelease>) -> (r: Vec<ReleaseOption>)
    ensures
        r@.len() == published(rs@).len(),
        forall|i: int| 0 <= i < r@.len() ==> github_release(#[trigger] r@[i], published(rs@)[i]),
{
    let mut r: Vec<ReleaseOption> = Vec::new();
    let mut i: usize = 0;
    while i < rs.len()
        invariant
            i <= rs.len(),
            r@.len() == published(rs@.take(i as int)).len(),
            forall|k: int| 0 <= k < r@.len() ==> github_release(#[trigger] r@[k], published(rs@.take(i as int))[k]),
        decreases rs.len() - i,
    {
        let ghost before = published(rs@.take(i as int));
        assert(rs@.take(i + 1).drop_last() =~= rs@.take(i as int));
        assert(rs@.take(i + 1).last() == rs@[i as int]);
        if !rs[i].draft {
            r.push(github_release_option(&rs[i]));
            assert(published(rs@.take(i + 1)) =~= before.push(rs@[i as int]));
        } else {
            assert(published(rs@.take(i + 1)) =~= before);
        }
        i += 1;
    }
    assert(rs@.take(rs.len() as int) =~= rs@);
    r
}

fn gitlab_release_option(r: &GitLabRelease) -> (o: ReleaseOption)
    ensures
        gitlab_release(o, *r),
{
    let ghost ns = r.assets.sources@.len();
    let mut files: Vec<FileOption> = Vec::new();
    let mut k: usize = 0;
    while k < r.assets.sources.len()
        invariant
            k <= r.assets.sources@.len(),
            files@.len() == k,
            forall|j: int| 0 <= j < k ==> file_is(#[trigger] files@[j], source_name(r.assets.sources@[j]), r.assets.sources@[j].url@),
        decreases r.assets.sources.len() - k,
    {
        let s = &r.assets.sources[k];
        let name = match &s.format {
            Some(f) => f.clone(),
            None => "source archive".to_owned(),
        };
        files.push(FileOption { name, url: s.url.clone() });
        k += 1;
    }
    let mut k: usize = 0;
    while k < r.assets.links.len()
        invariant
            k <= r.assets.links@.len(),
            ns == r.assets.sources@.len(),
            files@.len() == ns + k,
            forall|j: int| 0 <= j < ns ==> file_is(#[trigger] files@[j], source_name(r.assets.sources@[j]), r.assets.sources@[j].url@),
            forall|j: int| ns <= j < ns + k ==> file_is(#[trigger] files@[j], link_name(r.assets.links@[j - ns]), r.assets.links@[j - ns].url@),
        decreases r.assets.links.len() - k,
    {
        let l = &r.assets.links[k];
        let name = match &l.name {
            Some(n) => n.clone(),
            None => file_name_from_url(l.url.as_str()),
        };
        files.push(FileOption { name, url: l.url.clone() });
        k += 1;
    }
    let title = match &r.tag_name {
        Some(t) => t.clone(),
        None => match &r.name {
            Some(n) => n.clone(),
            None => "Release".to_owned(),
        },
    };
    let mut subtitle: Vec<char> = Vec::new();
    push_count(&mut subtitle, files.len());
    extend_str(&mut subtitle, " file(s)");
    ReleaseOption { title, subtitle: string_from_chars(&subtitle), files }
}

fn gitlab_releases(rs: &Vec<GitLabRelease>) -> (r: Vec<ReleaseOption>)
    ensures
        r@.len() == rs@.len(),
        forall|i: int| 0 <= i < r@.len() ==> gitlab_release(#[trigger] r@[i], rs@[i]),
{
    let mut r: Vec<ReleaseOption> = Vec::new();
    let mut i: usize = 0;
    while i < rs.len()
        invariant
            i <= rs.len(),
            r@.len() == i,
            forall|k: int| 0 <= k < i ==> gitlab_release(#[trigger] r@[k], rs@[k]),
        decreases rs.len() - i,
    {
        r.push(gitlab_release_option(&rs[i]));
        i += 1;
    }
    r
}

fn encode_path_chars(name: &str) -> (r: Vec<char>)
    ensures
        r@ == encoded_path(name@),
{
    let v = chars_of(name);
    let mut out: Vec<char> = Vec::new();
    let mut start: usize = 0;
    assert(v@.skip(0) =~= v@);
    loop
        invariant
            start <= v.len(),
            v@ == name@,
            encoded_path(name@) == out@ + encoded_path(v@.skip(start as int)),
        decreases v.len() - start,
    {
        let end = find_char(&v, start, '/');
        let part = sub_chars(&v, start, end);
        let ghost rest = v@.skip(start as int);
        let enc = encode_segment(string_from_chars(&part).as_str());
        extend_str(&mut out, enc.as_str());
        if end == v.len() {
            assert(part@ =~= rest);
            return out;
        }
        assert(part@ =~= rest.take(end - start));
        assert(rest.skip(end - start + 1) =~= v@.skip(end + 1));
        extend_str(&mut out, "/");
        start = end + 1;
    }
}

fn is_hidden_format(f: &Option<String>) -> (r: bool)
    ensures
        r == hidden_format(*f),
{
    match f {
        Some(x) => {
            let v = chars_of(x.as_str());
            chars_equal_str(&v, "Metadata") || chars_equal_str(&v, "Text") || chars_equal_str(&v, "Item Image")
        },
        None => false,
    }
}

fn archive_release_option(identifier: &str, files: &Vec<InternetArchiveFile>) -> (o: ReleaseOption)
    ensures
        archive_release(o, identifier@, files@),
{
    let mut out: Vec<FileOption> = Vec::new();
    let mut i: usize = 0;
    while i < files.len()
        invariant
            i <= files.len(),
            out@.len() == listed_files(files@.take(i as int)).len(),
            forall|k: int| 0 <= k < out@.len() ==> file_is(#[trigger] out@[k], listed_files(files@.take(i as int))[k].name@, archive_download_url(identifier@, listed_files(files@.take(i as int))[k].name@)),
        decreases files.len() - i,
    {
        let ghost before = listed_files(files@.take(i as int));
        assert(files@.take(i + 1).drop_last() =~= files@.take(i as int));
        assert(files@.take(i + 1).last() == files@[i as int]);
        let f = &files[i];
        if !is_hidden_format(&f.format) {
            let mut url = chars_of("https://archive.org/download/");
            extend_str(&mut url, identifier);
            extend_str(&mut url, "/");
            let enc = encode_path_chars(f.name.as_str());
            extend_chars(&mut url, &enc);
            out.push(FileOption { name: f.name.clone(), url: string_from_chars(&url) });
            assert(listed_files(files@.take(i + 1)) =~= before.push(files@[i as int]));
        } else {
            assert(listed_files(files@.take(i + 1)) =~= before);
        }
        i += 1;
    }
    assert(files@.take(files.len() as int) =~= files@);
    let mut subtitle: Vec<char> = Vec::new();
    push_count(&mut subtitle, out.len());
    extend_str(&mut subtitle, " downloadable file(s)");
    ReleaseOption {
        title: "Internet Archive files".to_owned(),
        subtitle: string_from_chars(&subtitle),
        files: out,
    }
}

/// What a releases reply offers for `repo`.
pub open spec fn release_results(repo: RepoItem, response: ReleasesResponse, r: Seq<ReleaseOption>) -> bool {
    match response {
        ReleasesResponse::GitHub(rs) => r.len() == published(rs@).len() && forall|i: int|
            0 <= i < r.len() ==> github_release(#[trigger] r[i], published(rs@)[i]),
        ReleasesResponse::GitLab(rs) => r.len() == rs@.len() && forall|i: int|
            0 <= i < r.len() ==> gitlab_release(#[trigger] r[i], rs@[i]),
        ReleasesResponse::InternetArchive(m) => r.len() == 1 && (repo.identifier matches Some(ident) && archive_release(r[0], ident@, m.files@)),
    }
}

/// The release options a reply offers: GitHub's published releases, GitLab's releases
/// (which need the project's id), or the one file list of an archive item (which needs the
/// item's identifier).
pub fn fetch_releases(repo: &RepoItem, response: &ReleasesResponse) -> (r: Result<Vec<ReleaseOption>, NetError>)
    ensures
        match r {
            Ok(v) => release_results(*repo, *response, v@),
            Err(e) => (e == NetError::MissingIdentifier && response is InternetArchive && repo.identifier is None)
                || (e == NetError::MissingProjectId && response is GitLab && repo.project_id is None),
        },
        response is GitLab && repo.project_id is None ==> r == Err::<Vec<ReleaseOption>, NetError>(NetError::MissingProjectId),
        response is InternetArchive && repo.identifier is None ==> r == Err::<Vec<ReleaseOption>, NetError>(NetError::MissingIdentifier),
{
    match response {
        ReleasesResponse::GitHub(rs) => Ok(github_releases(rs)),
        ReleasesResponse::GitLab(rs) => match repo.project_id {
            Some(_) => Ok(gitlab_releases(rs)),
            None => Err(NetError::MissingProjectId),
        },
        ReleasesResponse::InternetArchive(m) => match &repo.identifier {
            Some(ident) => {
                let mut v: Vec<ReleaseOption> = Vec::new();
                v.push(archive_release_option(ident.as_str(), &m.files));
                Ok(v)
            },
            None => Err(NetError::MissingIdentifier),
        },
    }
}

// ---------------------------------------------------------------------------------------
// SteamGridDB

/// Refuses a reply that reports failure and holds nothing.
pub fn ensure_sgdb_ok<T>(response: &SgdbList<T>) -> (r: Result<(), NetError>)
    ensures
        r is Ok <==> (response.success || response.data@.len() > 0),
        r is Err ==> r == Err::<(), NetError>(NetError::SteamGridDbFailed),
{
    if response.success || response.data.len() > 0 {
        Ok(())
    } else {
        Err(NetError::SteamGridDbFailed)
    }
}

/// A game's subtitle: "verified" or "community", and its release date where known.
pub open spec fn game_subtitle(g: SgdbGame) -> Seq<char> {
    let kind = if g.verified { "verified"@ } else { "community"@ };
    match g.release_date {
        Some(d) => kind + " · released "@ + decimal(d as nat),
        None => kind,
    }
}

pub open spec fn artwork_game(a: ArtworkGame, g: SgdbGame) -> bool {
    a.id == g.id && a.name@ == g.name@ && a.subtitle@ == game_subtitle(g)
}

/// The games of a SteamGridDB search reply.
pub fn artwork_games(response: &SgdbList<SgdbGame>) -> (r: Result<Vec<ArtworkGame>, NetError>)
    ensures
        match r {
            Ok(v) => (response.success || response.data@.len() > 0) && v@.len() == response.data@.len()
                && forall|i: int| 0 <= i < v@.len() ==> artwork_game(#[trigger] v@[i], response.data@[i]),
            Err(e) => e == NetError::SteamGridDbFailed && !response.success && response.data@.len() == 0,
        },
{
    if ensure_sgdb_ok(response).is_err() {
        return Err(NetError::SteamGridDbFailed);
    }
    let data = &response.data;
    let mut v: Vec<ArtworkGame> = Vec::new();
    let mut i: usize = 0;
    while i < data.len()
        invariant
            i <= data.len(),
            v@.len() == i,
            forall|k: int| 0 <= k < i ==> artwork_game(#[trigger] v@[k], data@[k]),
        decreases data.len() - i,
    {
        let g = &data[i];
        let mut sub = chars_of(if g.verified { "verified" } else { "community" });
        match g.release_date {
            Some(d) => {
                extend_str(&mut sub, " · released ");
                push_decimal(&mut sub, d);
            },
            None => {},
        }
        v.push(ArtworkGame { id: g.id, name: g.name.clone(), subtitle: string_from_chars(&sub) });
        i += 1;
    }
    Ok(v)
}

/// Landscape grids (or grids of unknown size) are offered as library artwork.
pub open spec fn is_landscape(g: SgdbGrid) -> bool {
    g.width == 0 || g.height == 0 || g.width > g.height
}

pub open spec fn landscape_grids(gs: Seq<SgdbGrid>) -> Seq<SgdbGrid>
    decreases gs.len(),
{
    if gs.len() == 0 {
        seq![]
    } else {
        landscape_grids(gs.drop_last()) + if is_landscape(gs.last()) {
            seq![gs.last()]
        } else {
            seq![]
        }
    }
}

pub open spec fn artwork_grid(a: ArtworkGrid, g: SgdbGrid) -> bool {
    &&& a.id == g.id
    &&& a.url@ == g.url@
    &&& a.thumb@ == g.thumb@
    &&& a.width == g.width
    &&& a.height == g.height
    &&& a.preview_path is None
}

/// Only grids strictly wider than tall (or of unknown size) are offered: a square or
/// portrait grid with both sides known is never among them, and every grid that is wider
/// than tall, or of unknown size, is.
pub proof fn lemma_only_wide_grids_offered(gs: Seq<SgdbGrid>)
    ensures
        forall|i: int| 0 <= i < landscape_grids(gs).len() ==> {
            let g = #[trigger] landscape_grids(gs)[i];
            g.width == 0 || g.height == 0 || g.width > g.height
        },
        forall|i: int| 0 <= i < landscape_grids(gs).len() ==> gs.contains(#[trigger] landscape_grids(gs)[i]),
        forall|j: int| 0 <= j < gs.len() && (gs[j].width == 0 || gs[j].height == 0 || gs[j].width > gs[j].height)
            ==> landscape_grids(gs).contains(#[trigger] gs[j]),
    decreases gs.len(),
{
    if gs.len() > 0 {
        let p = gs.drop_last();
        lemma_only_wide_grids_offered(p);
        let x = gs.last();
        let lp = landscape_grids(p);
        let l = landscape_grids(gs);
        assert forall|i: int| 0 <= i < l.len() implies {
            let g = #[trigger] l[i];
            (g.width == 0 || g.height == 0 || g.width > g.height) && gs.contains(g)
        } by {
            if i < lp.len() {
                assert(l[i] == lp[i]);
                let k = choose|k: int| 0 <= k < p.len() && p[k] == lp[i];
                assert(gs[k] == p[k]);
            } else {
                assert(l[i] == x);
                assert(gs[gs.len() - 1] == x);
            }
        }
        assert forall|j: int| 0 <= j < gs.len() && (gs[j].width == 0 || gs[j].height == 0 || gs[j].width > gs[j].height)
            implies l.contains(#[trigger] gs[j]) by {
            if j < gs.len() - 1 {
                assert(gs[j] == p[j]);
                let k = choose|k: int| 0 <= k < lp.len() && lp[k] == p[j];
                assert(l[k] == lp[k]);
            } else {
                assert(l[l.len() - 1] == x);
            }
        }
    }
}

/// The landscape grid images of a SteamGridDB reply, in reply order, without previews.
pub fn artwork_grids(response: &SgdbList<SgdbGrid>) -> (r: Result<Vec<ArtworkGrid>, NetError>)
    ensures
        match r {
            Ok(v) => (response.success || response.data@.len() > 0) && v@.len() == landscape_grids(response.data@).len()
                && forall|i: int| 0 <= i < v@.len() ==> artwork_grid(#[trigger] v@[i], landscape_grids(response.data@)[i]),
            Err(e) => e == NetError::SteamGridDbFailed && !response.success && response.data@.len() == 0,
        },
        r matches Ok(v) ==> forall|i: int| 0 <= i < v@.len() ==> {
            let g = #[trigger] v@[i];
            g.width == 0 || g.height == 0 || g.width > g.height
        },
{
    proof {
        lemma_only_wide_grids_offered(response.data@);
    }
    if ensure_sgdb_ok(response).is_err() {
        return Err(NetError::SteamGridDbFailed);
    }
    let data = &response.data;
    let mut v: Vec<ArtworkGrid> = Vec::new();
    let mut i: usize = 0;
    while i < data.len()
        invariant
            i <= data.len(),
            v@.len() == landscape_grids(data@.take(i as int)).len(),
            forall|k: int| 0 <= k < v@.len() ==> artwork_grid(#[trigger] v@[k], landscape_grids(data@.take(i as int))[k]),
        decreases data.len() - i,
    {
        let ghost before = landscape_grids(data@.take(i as int));
        assert(data@.take(i + 1).drop_last() =~= data@.take(i as int));
        assert(data@.take(i + 1).last() == data@[i as int]);
        let g = &data[i];
        if g.width == 0 || g.height == 0 || g.width > g.height {
            v.push(ArtworkGrid {
                id: g.id,
                url: g.url.clone(),
                thumb: g.thumb.clone(),
                width: g.width,
                height: g.height,
                preview_path: None,
            });
            assert(landscape_grids(data@.take(i + 1)) =~= before.push(data@[i as int]));
        } else {
            assert(landscape_grids(data@.take(i + 1)) =~= before);
        }
        i += 1;
    }
    assert(data@.take(data.len() as int) =~= data@);
    Ok(v)
}

// ---------------------------------------------------------------------------------------
// Downloads

pub open spec fn is_ascii_digit(c: char) -> bool {
    '0' <= c <= '9'
}

/// The number the decimal digits `d` spell.
pub open spec fn digits_value(d: Seq<char>) -> nat
    decreases d.len(),
{
    if d.len() == 0 {
        0
    } else {
        digits_value(d.drop_last()) * 10 + ((d.last() as u32) - ('0' as u32)) as nat
    }
}

/// `u64::from_str`: an optional `+` and at least one decimal digit, the value fitting in
/// 64 bits.
pub open spec fn parse_u64(s: Seq<char>) -> Option<u64> {
    let d = unsigned_digits(s);
    if d.len() > 0 && all_digits(d) && digits_value(d) <= u64::MAX {
        Some(digits_value(d) as u64)
    } else {
        None
    }
}

/// The text after an optional leading `+`.
pub open spec fn unsigned_digits(s: Seq<char>) -> Seq<char> {
    if s.len() > 0 && s[0] == '+' { s.drop_first() } else { s }
}

pub open spec fn all_digits(d: Seq<char>) -> bool {
    forall|i: int| 0 <= i < d.len() ==> is_ascii_digit(#[trigger] d[i])
}

proof fn lemma_digits_value_prefix(d: Seq<char>, i: int)
    requires
        0 <= i <= d.len(),
        forall|k: int| 0 <= k < d.len() ==> is_ascii_digit(#[trigger] d[k]),
    ensures
        digits_value(d.take(i)) <= digits_value(d),
    decreases d.len() - i,
{
    if i < d.len() {
        assert(d.drop_last().take(i) =~= d.take(i));
        assert forall|k: int| 0 <= k < d.drop_last().len() implies is_ascii_digit(#[trigger] d.drop_last()[k]) by {
            assert(d.drop_last()[k] == d[k]);
        }
        lemma_digits_value_prefix(d.drop_last(), i);
    } else {
        assert(d.take(i) =~= d);
    }
}

/// Parses an unsigned decimal number as `u64::from_str` does.
pub fn parse_u64_str(s: &str) -> (r: Option<u64>)
    ensures
        r == parse_u64(s@),
{
    let v = chars_of(s);
    let start: usize = if v.len() > 0 && v[0] == '+' { 1 } else { 0 };
    let d = sub_chars(&v, start, v.len());
    assert(start == 1 ==> d@ =~= v@.drop_first());
    assert(start == 0 ==> d@ =~= v@);
    let ghost spec_d = unsigned_digits(s@);
    assert(d@ == spec_d);
    if d.len() == 0 {
        return None;
    }
    let mut i: usize = 0;
    while i < d.len()
        invariant
            i <= d.len(),
            d@ == spec_d,
            spec_d == unsigned_digits(s@),
            forall|k: int| 0 <= k < i ==> is_ascii_digit(#[trigger] d@[k]),
        decreases d.len() - i,
    {
        if !('0' <= d[i] && d[i] <= '9') {
            assert(!is_ascii_digit(spec_d[i as int]));
            assert(!all_digits(spec_d));
            return None;
        }
        i += 1;
    }
    let mut value: u64 = 0;
    let mut i: usize = 0;
    assert(d@.take(0) =~= Seq::<char>::empty());
    while i < d.len()
        invariant
            i <= d.len(),
            d@ == spec_d,
            spec_d == unsigned_digits(s@),
            d.len() > 0,
            forall|k: int| 0 <= k < d.len() ==> is_ascii_digit(#[trigger] d@[k]),
            value == digits_value(d@.take(i as int)),
        decreases d.len() - i,
    {
        assert(d@.take(i + 1).drop_last() =~= d@.take(i as int));
        assert(d@.take(i + 1).last() == d@[i as int]);
        assert(is_ascii_digit(d@[i as int]));
        let digit = (d[i] as u32 - '0' as u32) as u64;
        match value.checked_mul(10) {
            Some(m) => match m.checked_add(digit) {
                Some(n) => {
                    value = n;
                },
                None => {
                    proof {
                        lemma_digits_value_prefix(d@, i + 1);
                    }
                    return None;
                },
            },
            None => {
                proof {
                    lemma_digits_value_prefix(d@, i + 1);
                }
                return None;
            },
        }
        i += 1;
    }
    assert(d@.take(d.len() as int) =~= d@);
    Some(value)
}

/// The size a download announces in its `Content-Length` header, where it is a positive
/// number.
pub fn content_length(header: Option<&str>) -> (r: Option<u64>)
    ensures
        r == (match header {
            Some(h) => match parse_u64(h@) {
                Some(n) => if n > 0 { Some(n) } else { None },
                None => None,
            },
            None => None,
        }),
{
    match header {
        Some(h) => match parse_u64_str(h) {
            Some(n) => if n > 0 { Some(n) } else { None },
            None => None,
        },
        None => None,
    }
}

/// How often progress is reported while downloading, in nanoseconds.
pub const PROGRESS_EVERY_NANOS: u64 = 50_000_000;

/// When a download reports its progress: after a chunk when at least `PROGRESS_EVERY_NANOS`
/// passed since the last report, and once at the end. Times are nanoseconds since a
/// point chosen by the caller, which the first chunk is at least that long after.
pub struct ProgressTracker {
    /// Bytes copied so far.
    pub downloaded: u64,
    /// The time of the last report.
    pub last: u64,
}

impl ProgressTracker {
    /// Nothing copied, last report at time 0.
    pub fn new() -> (t: ProgressTracker)
        ensures
            t.downloaded == 0,
            t.last == 0,
    {
        ProgressTracker { downloaded: 0, last: 0 }
    }

    /// Counts a chunk of `read` bytes copied at time `now`; the byte count to report, if it
    /// is time to report.
    pub fn on_chunk(&mut self, read: u64, now: u64) -> (report: Option<u64>)
        requires
            old(self).downloaded + read <= u64::MAX,
        ensures
            final(self).downloaded == old(self).downloaded + read,
            (if now >= old(self).last { now - old(self).last } else { 0 }) >= PROGRESS_EVERY_NANOS ==> (
            report == Some(final(self).downloaded) && final(self).last == now),
            (if now >= old(self).last { now - old(self).last } else { 0 }) < PROGRESS_EVERY_NANOS ==> (
            report is None && final(self).last == old(self).last),
    {
        self.downloaded = self.downloaded + read;
        if now.saturating_sub(self.last) >= PROGRESS_EVERY_NANOS {
            self.last = now;
            Some(self.downloaded)
        } else {
            None
        }
    }

    /// The byte count reported when the copy ends: everything copied.
    pub fn finish(&self) -> (total: u64)
        ensures
            total == self.downloaded,
    {
        self.downloaded
    }
}

/// The file artwork for app `app_name` downloaded from `url` is saved as.
pub fn artwork_file_for(paths: &crate::state::Paths, app_name: &str, url: &str) -> (r: String)
    ensures
        r@ == crate::ops::artwork_file(paths.artwork@, app_name@, image_extension_spec(url@)),
{
    let ext = image_extension_from_url(url);
    let mut name = chars_of(app_name);
    name.push('.');
    extend_str(&mut name, ext);
    crate::state::join_path(paths.artwork.as_str(), string_from_chars(&name).as_str())
}

/// The cached preview file of grid `id` downloaded from `url`: `sgdb-{id}.{ext}` in the
/// cache folder.
pub fn preview_file_for(paths: &crate::state::Paths, id: u32, url: &str) -> (r: String)
    ensures
        r@ == crate::state::path_join(paths.cache@, "sgdb-"@ + decimal(id as nat) + "."@ + image_extension_spec(url@)),
{
    let ext = image_extension_from_url(url);
    let mut name = chars_of("sgdb-");
    push_decimal(&mut name, id as u64);
    name.push('.');
    extend_str(&mut name, ext);
    proof {
        reveal_strlit(".");
    }
    assert(name@ =~= "sgdb-"@ + decimal(id as nat) + "."@ + image_extension_spec(url@));
    crate::state::join_path(paths.cache.as_str(), string_from_chars(&name).as_str())
}

// ---------------------------------------------------------------------------------------
// Artwork pages

/// Artwork grids shown per page.
pub const ARTWORK_PAGE_SIZE: usize = 12;

/// The grids `start .. end` shown on page `page` of `len` grids.
pub open spec fn page_start(page: nat) -> nat {
    page * 12
}

pub open spec fn page_end(page: nat, len: nat) -> nat {
    if page * 12 + 12 <= len { page * 12 + 12 } else { len }
}

/// The first and one-past-last grid positions of a page.
pub fn page_bounds(page: usize, len: usize) -> (r: (usize, usize))
    requires
        page * 12 + 12 <= usize::MAX,
    ensures
        r.0 == page_start(page as nat),
        r.1 == page_end(page as nat, len as nat),
{
    let start = page * ARTWORK_PAGE_SIZE;
    let end = if start + ARTWORK_PAGE_SIZE <= len { start + ARTWORK_PAGE_SIZE } else { len };
    (start, end)
}

/// The positions on page `page` whose preview is still to be downloaded, ascending.
pub fn preview_jobs(grids: &Vec<ArtworkGrid>, page: usize) -> (r: Vec<usize>)
    requires
        page * 12 + 12 <= usize::MAX,
    ensures
        forall|k: int| 0 <= k < r@.len() ==> page_start(page as nat) <= #[trigger] r@[k] < page_end(page as nat, grids@.len()),
        forall|k: int| 0 <= k < r@.len() ==> grids@[#[trigger] r@[k] as int].preview_path is None,
        forall|a: int, b: int| 0 <= a < b < r@.len() ==> #[trigger] r@[a] < #[trigger] r@[b],
        forall|i: int| page_start(page as nat) <= i < page_end(page as nat, grids@.len())
            && #[trigger] grids@[i].preview_path is None ==> r@.contains(i as usize),
{
    let (start, end) = page_bounds(page, grids.len());
    let mut r: Vec<usize> = Vec::new();
    if start >= end {
        return r;
    }
    let mut i = start;
    while i < end
        invariant
            start <= i <= end <= grids.len(),
            start == page_start(page as nat),
            end == page_end(page as nat, grids@.len()),
            forall|k: int| 0 <= k < r@.len() ==> start <= #[trigger] r@[k] < i,
            forall|k: int| 0 <= k < r@.len() ==> grids@[#[trigger] r@[k] as int].preview_path is None,
            forall|a: int, b: int| 0 <= a < b < r@.len() ==> #[trigger] r@[a] < #[trigger] r@[b],
            forall|j: int| start <= j < i && #[trigger] grids@[j].preview_path is None ==> r@.contains(j as usize),
        decreases end - i,
    {
        let ghost before = r@;
        if grids[i].preview_path.is_none() {
            r.push(i);
            assert(r@[r@.len() - 1] == i);
        }
        assert forall|j: int| start <= j < i + 1 && #[trigger] grids@[j].preview_path is None implies r@.contains(j as usize) by {
            if j < i {
                let k = choose|k: int| 0 <= k < before.len() && before[k] == j as usize;
                assert(r@[k] == before[k]);
            } else {
                assert(r@[r@.len() - 1] == i);
            }
        }
        i += 1;
    }
    r
}

/// Records the downloaded preview of the grid at `index`.
pub fn set_preview(grids: &mut Vec<ArtworkGrid>, index: usize, path: String)
    requires
        index < old(grids)@.len(),
    ensures
        final(grids)@.len() == old(grids)@.len(),
        final(grids)@[index as int].preview_path == Some(path),
        final(grids)@[index as int].id == old(grids)@[index as int].id,
        final(grids)@[index as int].url == old(grids)@[index as int].url,
        final(grids)@[index as int].thumb == old(grids)@[index as int].thumb,
        final(grids)@[index as int].width == old(grids)@[index as int].width,
        final(grids)@[index as int].height == old(grids)@[index as int].height,
        forall|i: int| 0 <= i < final(grids)@.len() && i != index ==> #[trigger] final(grids)@[i] == old(grids)@[i],
{
    let g = &grids[index];
    let updated = ArtworkGrid {
        id: g.id,
        url: g.url.clone(),
        thumb: g.thumb.clone(),
        width: g.width,
        height: g.height,
        preview_path: Some(path),
    };
    grids.set(index, updated);
}

/// The number of artwork pages for `count` grids: at least one.
pub fn artwork_page_count(count: usize) -> (r: i32)
    ensures
        r == (if count == 0 { 1int } else { (count as int + 11) / 12 }) as i32,
{
    let pages = if count == 0 { 1 } else { count / ARTWORK_PAGE_SIZE + if count % ARTWORK_PAGE_SIZE == 0 { 0 } else { 1 } };
    assert(pages == (if count == 0 { 1int } else { (count as int + 11) / 12 }));
    #[verifier::truncate]
    (pages as i32)
}

/// The page shown after moving by `delta` (back when negative, else forward) from `page`
/// through `count` grids: back stops at the first page, forward at the last.
pub fn next_artwork_page(page: usize, count: usize, delta: i32) -> (r: usize)
    requires
        delta >= 0 ==> page < usize::MAX,
    ensures
        r == (if delta < 0 {
            if page > 0 { page - 1 } else { 0 }
        } else {
            let max_page = (if count > 0 { count - 1 } else { 0 }) / 12;
            if page + 1 < max_page { page + 1 } else { max_page }
        }),
{
    let max_page = count.saturating_sub(1) / ARTWORK_PAGE_SIZE;
    if delta < 0 {
        page.saturating_sub(1)
    } else {
        let next = page + 1;
        if next < max_page { next } else { max_page }
    }
}

proof fn lemma_digits_of_decimal(n: nat)
    ensures
        decimal(n).len() > 0,
        all_digits(decimal(n)),
        digits_value(decimal(n)) == n,
    decreases n,
{
    let d = (n % 10) as nat;
    assert(((crate::text::digit(d) as u32) - ('0' as u32)) as nat == d);
    if n >= 10 {
        lemma_digits_of_decimal(n / 10);
        let s = decimal(n);
        assert(s.drop_last() =~= decimal(n / 10));
        assert forall|i: int| 0 <= i < s.len() implies is_ascii_digit(#[trigger] s[i]) by {
            if i < s.len() - 1 {
                assert(s[i] == decimal(n / 10)[i]);
            }
        }
        assert(s.last() == crate::text::digit(d));
        assert(digits_value(s) == digits_value(decimal(n / 10)) * 10 + d);
        assert(n == (n / 10) * 10 + d);
    } else {
        let s = decimal(n);
        assert(s.drop_last() =~= Seq::<char>::empty());
        assert(digits_value(s.drop_last()) == 0);
        assert(s.last() == crate::text::digit(d));
        assert(n == d);
    }
}

/// Reading back a number written in decimal gives the number: `parse_u64_str` undoes
/// `u64_to_string`.
pub proof fn lemma_decimal_round_trip(n: u64)
    ensures
        parse_u64(decimal(n as nat)) == Some(n),
{
    lemma_digits_of_decimal(n as nat);
    let s = decimal(n as nat);
    assert(is_ascii_digit(s[0]));
    assert(unsigned_digits(s) == s);
}

/// The name a download is saved under is never empty.
pub proof fn lemma_file_name_not_empty(url: Seq<char>)
    ensures
        url_file_name(url).len() > 0,
{
    reveal_strlit("download.bin");
}

/// Artwork is always stored with one of the known image extensions.
pub proof fn lemma_image_extension_known(url: Seq<char>)
    ensures
        crate::ops::image_extensions().contains(image_extension_spec(url)),
{
    let e = image_extension_spec(url);
    let exts = crate::ops::image_extensions();
    if e == "png"@ {
        assert(exts[0] == e);
    } else if e == "jpg"@ {
        assert(exts[1] == e);
    } else if e == "webp"@ {
        assert(exts[3] == e);
    } else if e == "gif"@ {
        assert(exts[4] == e);
    } else {
        assert(exts[5] == e);
    }
}

/// Artwork saved from `url` is found again: where the app's only artwork file is the one
/// `artwork_file_for` names (earlier ones being removed before the download), so that
/// candidate `i` is a file exactly when its extension is the saved one,
/// `find_artwork_path` gives that file.
pub proof fn lemma_saved_artwork_is_found(artwork: Seq<char>, app_name: Seq<char>, url: Seq<char>, is_file: Seq<bool>)
    requires
        is_file.len() == 6,
        forall|i: int| 0 <= i < 6 ==> is_file[i] == (crate::ops::image_extensions()[i] == image_extension_spec(url)),
    ensures
        crate::ops::first_set(is_file) matches Some(i) && crate::ops::artwork_file(
            artwork,
            app_name,
            crate::ops::image_extensions()[i],
        ) == crate::ops::artwork_file(artwork, app_name, image_extension_spec(url)),
{
    lemma_image_extension_known(url);
    let exts = crate::ops::image_extensions();
    let e = image_extension_spec(url);
    let k = choose|k: int| 0 <= k < exts.len() && exts[k] == e;
    assert(is_file[k]);
    // The first candidate that is a file.
    let m: int = if is_file[0] {
        0
    } else if is_file[1] {
        1
    } else if is_file[2] {
        2
    } else if is_file[3] {
        3
    } else if is_file[4] {
        4
    } else {
        5
    };
    assert(0 <= m < is_file.len() && is_file[m] && forall|j: int| 0 <= j < m ==> !is_file[j]);
    let w = choose|i: int| 0 <= i < is_file.len() && is_file[i] && forall|j: int| 0 <= j < i ==> !is_file[j];
    assert(is_file[w]);
    assert(exts[w] == e);
}

/// A percent-encoded path segment holds no `/`: building a URL from encoded segments
/// cannot add path levels.
pub proof fn lemma_encoded_segment_has_no_slash(value: Seq<char>)
    ensures
        forall|i: int| 0 <= i < encoded_segment(value).len() ==> #[trigger] encoded_segment(value)[i] != '/',
{
    lemma_encode_bytes_no_slash(encode_utf8(value));
}

proof fn lemma_encode_bytes_no_slash(b: Seq<u8>)
    ensures
        forall|i: int| 0 <= i < encode_bytes(b).len() ==> #[trigger] encode_bytes(b)[i] != '/',
    decreases b.len(),
{
    if b.len() > 0 {
        lemma_encode_bytes_no_slash(b.drop_last());
        let x = b.last();
        let e = encode_byte(x);
        if !segment_safe(x) {
            assert(upper_hex(x / 16) != '/');
            assert(upper_hex(x % 16) != '/');
        }
        assert forall|i: int| 0 <= i < encode_bytes(b).len() implies #[trigger] encode_bytes(b)[i] != '/' by {
            let p = encode_bytes(b.drop_last());
            if i >= p.len() {
                assert(encode_bytes(b)[i] == e[i - p.len()]);
            } else {
                assert(encode_bytes(b)[i] == p[i]);
            }
        }
    }
}


/// The byte a hex digit `d` (below 16) is written with in an encoded segment.
spec fn hex_digit_byte(d: u8) -> u8 {
    if d < 10 {
        (d + 0x30) as u8
    } else {
        (d - 10 + 0x41) as u8
    }
}

/// The bytes one byte is encoded to.
spec fn byte_code(x: u8) -> Seq<u8> {
    if segment_safe(x) {
        seq![x]
    } else {
        seq![0x25u8, hex_digit_byte(x / 16), hex_digit_byte(x % 16)]
    }
}

/// The bytes a byte sequence is encoded to, built from the front.
spec fn code_bytes(b: Seq<u8>) -> Seq<u8>
    decreases b.len(),
{
    if b.len() == 0 {
        seq![]
    } else {
        byte_code(b[0]) + code_bytes(b.skip(1))
    }
}

proof fn lemma_code_bytes_snoc(b: Seq<u8>)
    requires
        b.len() > 0,
    ensures
        code_bytes(b) == code_bytes(b.drop_last()) + byte_code(b.last()),
    decreases b.len(),
{
    if b.len() == 1 {
        assert(b.skip(1) =~= Seq::<u8>::empty());
        assert(b.drop_last() =~= Seq::<u8>::empty());
        assert(code_bytes(Seq::<u8>::empty()) == Seq::<u8>::empty());
        assert(code_bytes(b) =~= byte_code(b[0]));
    } else {
        lemma_code_bytes_snoc(b.skip(1));
        assert(b.skip(1).drop_last() =~= b.drop_last().skip(1));
        assert(b.skip(1).last() == b.last());
        assert(b.drop_last()[0] == b[0]);
        assert(code_bytes(b) =~= code_bytes(b.drop_last()) + byte_code(b.last()));
    }
}

/// The characters of an encoded segment are ASCII, and their byte values are the codes.
proof fn lemma_encode_bytes_ascii(b: Seq<u8>)
    ensures
        vstd::utf8::is_ascii_chars(encode_bytes(b)),
        encode_bytes(b).map_values(|c: char| c as u8) =~= code_bytes(b),
    decreases b.len(),
{
    if b.len() > 0 {
        lemma_encode_bytes_ascii(b.drop_last());
        lemma_code_bytes_snoc(b);
        let x = b.last();
        let p = encode_bytes(b.drop_last());
        let e = encode_byte(x);
        assert(x / 16 < 16 && x % 16 < 16);
        assert(forall|d: u8| d < 16 ==> (upper_hex(d) as u8) == hex_digit_byte(d) && '\0' <= upper_hex(d) <= '\u{7f}');
        if segment_safe(x) {
            assert((x as char) as u8 == x);
        }
        assert(e.map_values(|c: char| c as u8) =~= byte_code(x));
        assert forall|i: int| 0 <= i < encode_bytes(b).len() implies '\0' <= #[trigger] encode_bytes(b)[i] <= '\u{7f}' by {
            if i >= p.len() {
                assert(encode_bytes(b)[i] == e[i - p.len()]);
            } else {
                assert(encode_bytes(b)[i] == p[i]);
            }
        }
        assert(encode_bytes(b).map_values(|c: char| c as u8) =~= p.map_values(|c: char| c as u8) + e.map_values(
            |c: char| c as u8,
        ));
    }
}

/// Decoding the codes of `b` followed by anything gives back `b`, then the decoding of
/// the rest.
proof fn lemma_decode_codes(b: Seq<u8>, rest: Seq<u8>)
    ensures
        percent_decode_bytes(code_bytes(b) + rest) == b + percent_decode_bytes(rest),
    decreases b.len(),
{
    if b.len() == 0 {
        assert(code_bytes(b) + rest =~= rest);
        assert(b + percent_decode_bytes(rest) =~= percent_decode_bytes(rest));
    } else {
        let x = b[0];
        let tail = code_bytes(b.skip(1)) + rest;
        lemma_decode_codes(b.skip(1), rest);
        let all = code_bytes(b) + rest;
        assert(all =~= byte_code(x) + tail);
        if segment_safe(x) {
            assert(all[0] == x);
            assert(all.skip(1) =~= tail);
        } else {
            let hi = x / 16;
            let lo = x % 16;
            assert(hi < 16 && lo < 16);
            assert(forall|d: u8| d < 16 ==> crate::theme::is_hex_digit(#[trigger] hex_digit_byte(d))
                && crate::theme::hex_value(hex_digit_byte(d)) == d);
            assert(all[0] == 0x25u8 && all[1] == hex_digit_byte(hi) && all[2] == hex_digit_byte(lo));
            assert(all.skip(3) =~= tail);
            assert((hi * 16 + lo) as u8 == x);
        }
        assert(b =~= seq![x] + b.skip(1));
        assert(percent_decode_bytes(all) =~= b + percent_decode_bytes(rest));
    }
}

/// Percent-decoding undoes `encode_segment`: decoding an encoded segment gives back the
/// UTF-8 bytes of the text, so the text itself.
pub proof fn lemma_decoding_undoes_encode_segment(value: Seq<char>)
    ensures
        percent_decode_bytes(encode_utf8(encoded_segment(value))) == encode_utf8(value),
        decode_utf8(percent_decode_bytes(encode_utf8(encoded_segment(value)))) == value,
{
    let b = encode_utf8(value);
    let e = encode_bytes(b);
    lemma_encode_bytes_ascii(b);
    vstd::utf8::is_ascii_chars_encode_utf8(e);
    assert(encode_utf8(e) =~= e.map_values(|c: char| c as u8));
    lemma_decode_codes(b, seq![]);
    assert(code_bytes(b) + seq![] =~= code_bytes(b));
    assert(b + seq![] =~= b);
    vstd::utf8::encode_utf8_decode_utf8(value);
}

} // verus!
