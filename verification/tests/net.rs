use reporocket::net::{
    artwork_games, artwork_grids, artwork_grids_request, artwork_page_count,
    artwork_search_request, bearer, content_length, encode_segment, ensure_sgdb_ok,
    fetch_releases, file_name_from_url, image_extension_from_url, next_artwork_page, page_bounds,
    parse_u64_str, preview_jobs, releases_request, search_repositories, search_request,
    set_preview, unwrap_desc, value_to_single_line, GitHubAsset, GitHubOwner, GitHubRelease,
    GitHubRepo, GitHubSearchResponse, GitLabAssets, GitLabLink, GitLabNamespace, GitLabProject,
    GitLabRelease, GitLabSource, InternetArchiveDoc, InternetArchiveFile, InternetArchiveMetadata,
    InternetArchiveSearch, InternetArchiveSearchResponse, JsonText, NetError, ProgressTracker,
    ReleasesResponse, SearchResponse, SgdbGame, SgdbGrid, SgdbList, artwork_file_for,
    preview_file_for, PROGRESS_EVERY_NANOS,
};
use reporocket::state::{ArtworkGrid, Paths, Provider, RepoItem};

fn repo(provider: Provider) -> RepoItem {
    RepoItem {
        provider,
        name: "My Game".into(),
        owner: "me/you".into(),
        description: String::new(),
        project_id: None,
        identifier: None,
    }
}

#[test]
fn segments_are_percent_encoded() {
    assert_eq!(encode_segment("a b/ü"), "a%20b%2F%C3%BC");
    assert_eq!(encode_segment("plain-Name_1.2~"), "plain-Name_1.2~");
    assert_eq!(encode_segment("50%?#"), "50%25%3F%23");
}

#[test]
fn file_names_from_urls() {
    assert_eq!(file_name_from_url("https://x.com/a/b%20c.zip?x=1"), "b c.zip");
    assert_eq!(file_name_from_url("https://example.com"), "download.bin");
    assert_eq!(file_name_from_url("https://example.com/dir/"), "download.bin");
    assert_eq!(file_name_from_url("not a url/dir/tool.exe?v=2"), "tool.exe");
    assert_eq!(file_name_from_url("mailto:someone@example.com"), "download.bin");
    assert_eq!(file_name_from_url("https://x.com/%E2%9C%93.txt"), "✓.txt");
}

#[test]
fn image_extensions_from_urls() {
    assert_eq!(image_extension_from_url("https://cdn.x/grid/img.JPEG"), "jpg");
    assert_eq!(image_extension_from_url("https://cdn.x/grid/img.webp"), "webp");
    assert_eq!(image_extension_from_url("https://cdn.x/grid/img.tiff"), "png");
    assert_eq!(image_extension_from_url("https://cdn.x/grid/img"), "png");
}

#[test]
fn search_requests() {
    let r = search_request(Provider::GitHub, "rust game").ok().unwrap();
    assert_eq!(r.url, "https://api.github.com/search/repositories?q=rust+game&per_page=10");
    assert_eq!(r.headers, vec![("Accept".to_string(), "application/vnd.github+json".to_string())]);
    let r = search_request(Provider::GitLab, "a&b").ok().unwrap();
    assert_eq!(r.url, "https://gitlab.com/api/v4/projects?search=a%26b&per_page=10");
    assert!(r.headers.is_empty());
    let r = search_request(Provider::InternetArchive, "doom").ok().unwrap();
    assert_eq!(
        r.url,
        "https://archive.org/advancedsearch.php?q=doom&fl%5B%5D=identifier&fl%5B%5D=title&fl%5B%5D=creator&fl%5B%5D=description&rows=10&output=json"
    );
}

#[test]
fn release_requests() {
    let r = releases_request(&repo(Provider::GitHub)).ok().unwrap();
    assert_eq!(r.url, "https://api.github.com/repos/me%2Fyou/My%20Game/releases");
    let mut gl = repo(Provider::GitLab);
    assert_eq!(releases_request(&gl).err(), Some(NetError::MissingProjectId));
    gl.project_id = Some(42);
    assert_eq!(releases_request(&gl).ok().unwrap().url, "https://gitlab.com/api/v4/projects/42/releases");
    let mut ia = repo(Provider::InternetArchive);
    assert_eq!(releases_request(&ia).err(), Some(NetError::MissingIdentifier));
    ia.identifier = Some("doom 2".into());
    assert_eq!(releases_request(&ia).ok().unwrap().url, "https://archive.org/metadata/doom%202");
}

#[test]
fn steamgriddb_requests() {
    assert_eq!(bearer("k"), "Bearer k");
    let r = artwork_search_request("key", "  Half Life ");
    assert_eq!(r.url, "https://www.steamgriddb.com/api/v2/search/autocomplete/Half%20Life");
    assert_eq!(r.headers, vec![("Authorization".to_string(), "Bearer key".to_string())]);
    let r = artwork_grids_request("key", 1234);
    assert_eq!(r.url, "https://www.steamgriddb.com/api/v2/grids/game/1234");
}

#[test]
fn descriptions_and_single_lines() {
    assert_eq!(unwrap_desc(&Some(" x ".into())), " x ");
    assert_eq!(unwrap_desc(&Some("  ".into())), "No description available.");
    assert_eq!(unwrap_desc(&None), "No description available.");
    let items = JsonText::Items(vec![Some("a".into()), None, Some("b\nc".into())]);
    assert_eq!(value_to_single_line(&Some(items)), Some("a, b c".to_string()));
    assert_eq!(value_to_single_line(&Some(JsonText::Other("42".into()))), Some("42".to_string()));
    assert_eq!(value_to_single_line(&Some(JsonText::Text(" \r\n ".into()))), None);
    assert_eq!(value_to_single_line(&None), None);
}

#[test]
fn search_replies_become_repositories() {
    let gh = SearchResponse::GitHub(GitHubSearchResponse {
        items: vec![GitHubRepo {
            name: "tool".into(),
            description: None,
            owner: GitHubOwner { login: "dev".into() },
        }],
    });
    let items = search_repositories(&gh);
    assert_eq!(items.len(), 1);
    assert_eq!(items[0].owner, "dev");
    assert_eq!(items[0].description, "No description available.");
    let gl = SearchResponse::GitLab(vec![GitLabProject {
        id: 7,
        name: "p".into(),
        description: Some("d".into()),
        namespace: Some(GitLabNamespace { name: None, full_path: Some("grp/sub".into()) }),
    }]);
    let items = search_repositories(&gl);
    assert_eq!(items[0].owner, "grp/sub");
    assert_eq!(items[0].project_id, Some(7));
    let ia = SearchResponse::InternetArchive(InternetArchiveSearch {
        response: InternetArchiveSearchResponse {
            docs: vec![InternetArchiveDoc {
                identifier: "id1".into(),
                title: None,
                creator: Some(JsonText::Items(vec![Some("A".into()), Some("B".into())])),
                description: None,
            }],
        },
    });
    let items = search_repositories(&ia);
    assert_eq!(items[0].name, "id1");
    assert_eq!(items[0].owner, "A, B");
    assert_eq!(items[0].identifier.as_deref(), Some("id1"));
    assert_eq!(items[0].provider, Provider::InternetArchive);
}

#[test]
fn release_replies_become_options() {
    let gh = ReleasesResponse::GitHub(vec![
        GitHubRelease { tag_name: "v2".into(), prerelease: true, draft: false, assets: vec![
            GitHubAsset { name: "a.zip".into(), browser_download_url: "https://x/a.zip".into() },
        ] },
        GitHubRelease { tag_name: "draft".into(), prerelease: false, draft: true, assets: vec![] },
        GitHubRelease { tag_name: "v1".into(), prerelease: false, draft: false, assets: vec![] },
    ]);
    let r = fetch_releases(&repo(Provider::GitHub), &gh).ok().unwrap();
    assert_eq!(r.len(), 2);
    assert_eq!(r[0].subtitle, "1 file(s), pre-release");
    assert_eq!(r[1].title, "v1");
    assert_eq!(r[1].subtitle, "0 file(s), release");
    let gl = ReleasesResponse::GitLab(vec![GitLabRelease {
        tag_name: None,
        name: None,
        assets: GitLabAssets {
            sources: vec![GitLabSource { format: None, url: "https://x/s.tar".into() }],
            links: vec![GitLabLink { name: None, url: "https://x/dl/setup.exe".into() }],
        },
    }]);
    let mut gl_repo = repo(Provider::GitLab);
    assert_eq!(fetch_releases(&gl_repo, &gl).err(), Some(NetError::MissingProjectId));
    gl_repo.project_id = Some(42);
    let r = fetch_releases(&gl_repo, &gl).ok().unwrap();
    assert_eq!(r[0].title, "Release");
    assert_eq!(r[0].files[0].name, "source archive");
    assert_eq!(r[0].files[1].name, "setup.exe");
    assert_eq!(r[0].subtitle, "2 file(s)");
    let meta = ReleasesResponse::InternetArchive(InternetArchiveMetadata {
        files: vec![
            InternetArchiveFile { name: "dir/My File.zip".into(), format: Some("ZIP".into()) },
            InternetArchiveFile { name: "meta.xml".into(), format: Some("Metadata".into()) },
            InternetArchiveFile { name: "x.bin".into(), format: None },
        ],
    });
    let mut ia = repo(Provider::InternetArchive);
    assert_eq!(fetch_releases(&ia, &meta).err(), Some(NetError::MissingIdentifier));
    ia.identifier = Some("item".into());
    let r = fetch_releases(&ia, &meta).ok().unwrap();
    assert_eq!(r.len(), 1);
    assert_eq!(r[0].title, "Internet Archive files");
    assert_eq!(r[0].subtitle, "2 downloadable file(s)");
    assert_eq!(r[0].files[0].url, "https://archive.org/download/item/dir/My%20File.zip");
    assert_eq!(r[0].files[1].name, "x.bin");
}

#[test]
fn steamgriddb_replies() {
    let empty: SgdbList<SgdbGame> = SgdbList { success: false, data: vec![] };
    assert_eq!(ensure_sgdb_ok(&empty), Err(NetError::SteamGridDbFailed));
    assert!(artwork_games(&empty).is_err());
    let games = SgdbList {
        success: true,
        data: vec![
            SgdbGame { id: 1, name: "A".into(), verified: true, release_date: Some(1600000000) },
            SgdbGame { id: 2, name: "B".into(), verified: false, release_date: None },
        ],
    };
    let g = artwork_games(&games).ok().unwrap();
    assert_eq!(g[0].subtitle, "verified · released 1600000000");
    assert_eq!(g[1].subtitle, "community");
    let grids = SgdbList {
        success: false,
        data: vec![
            SgdbGrid { id: 1, url: "u1".into(), thumb: "t1".into(), width: 920, height: 430 },
            SgdbGrid { id: 2, url: "u2".into(), thumb: "t2".into(), width: 600, height: 900 },
            SgdbGrid { id: 3, url: "u3".into(), thumb: "t3".into(), width: 0, height: 0 },
        ],
    };
    let v = artwork_grids(&grids).ok().unwrap();
    let ids: Vec<u32> = v.iter().map(|g| g.id).collect();
    assert_eq!(ids, vec![1, 3]);
    assert!(v[0].preview_path.is_none());
}

#[test]
fn content_lengths() {
    assert_eq!(content_length(Some("123")), Some(123));
    assert_eq!(content_length(Some("+5")), Some(5));
    assert_eq!(content_length(Some("0")), None);
    assert_eq!(content_length(Some("")), None);
    assert_eq!(content_length(Some("-5")), None);
    assert_eq!(content_length(Some("12a")), None);
    assert_eq!(content_length(Some("18446744073709551616")), None);
    assert_eq!(content_length(None), None);
    assert_eq!(parse_u64_str("18446744073709551615"), Some(u64::MAX));
}

#[test]
fn progress_is_reported_at_most_every_interval() {
    let mut t = ProgressTracker::new();
    assert_eq!(t.on_chunk(10, PROGRESS_EVERY_NANOS), Some(10));
    assert_eq!(t.on_chunk(5, PROGRESS_EVERY_NANOS + 1), None);
    assert_eq!(t.on_chunk(5, 2 * PROGRESS_EVERY_NANOS), Some(20));
    assert_eq!(t.finish(), 20);
}

#[test]
fn artwork_pages() {
    assert_eq!(page_bounds(0, 30), (0, 12));
    assert_eq!(page_bounds(2, 30), (24, 30));
    assert_eq!(artwork_page_count(0), 1);
    assert_eq!(artwork_page_count(12), 1);
    assert_eq!(artwork_page_count(13), 2);
    assert_eq!(next_artwork_page(0, 30, -1), 0);
    assert_eq!(next_artwork_page(1, 30, 1), 2);
    assert_eq!(next_artwork_page(2, 30, 1), 2);
    assert_eq!(next_artwork_page(0, 0, 1), 0);
}

#[test]
fn previews_for_the_shown_page() {
    let mut grids: Vec<ArtworkGrid> = (0..14)
        .map(|i| ArtworkGrid {
            id: i,
            url: format!("u{i}"),
            thumb: format!("t{i}"),
            width: 2,
            height: 1,
            preview_path: None,
        })
        .collect();
    set_preview(&mut grids, 13, "/cache/p13.png".into());
    assert_eq!(preview_jobs(&grids, 1), vec![12]);
    assert_eq!(preview_jobs(&grids, 0).len(), 12);
    assert!(preview_jobs(&grids, 5).is_empty());
    assert_eq!(grids[13].preview_path.as_deref(), Some("/cache/p13.png"));
}

#[test]
fn artwork_and_preview_files() {
    let p = Paths::from_root("/r");
    assert_eq!(artwork_file_for(&p, "Game", "https://x/a.JPG"), "/r/saves/reporocket/artwork/Game.jpg");
    assert_eq!(preview_file_for(&p, 7, "https://x/a"), "/r/saves/reporocket/cache/sgdb-7.png");
}

#[test]
fn decoding_gives_back_an_encoded_name() {
    for name in ["my game ü.zip", "50% off #1?.exe", "a\"b{c}.7z"] {
        let url = format!("https://archive.org/download/item/{}", encode_segment(name));
        assert_eq!(file_name_from_url(&url), name);
    }
}

#[test]
fn saved_artwork_is_found_again() {
    let paths = Paths::from_root("/data");
    let url = "https://cdn.example.com/grid/abc.JPEG";
    let saved = artwork_file_for(&paths, "Tool", url);
    let is_file: Vec<bool> = reporocket::ops::artwork_candidates(&paths, "Tool")
        .iter()
        .map(|candidate| *candidate == saved)
        .collect();
    assert_eq!(reporocket::ops::find_artwork_path(&paths, "Tool", &is_file), Some(saved));
}
