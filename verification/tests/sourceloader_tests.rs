use blackholed::api::validation::validate_source_id;
use blackholed::model::{HostDisposition, Source};
use blackholed::parser::parse_list;
use blackholed::sourceloader::{
    check_manual_reload, content_origin, derive_source_id, existing_file_refreshes, expected_files,
    hosts_for_refresh, is_dotfile, new_file_sources, orphaned_source_ids, reload_lock_key,
    source_id_from_file_name, sources_to_refresh, stale_sources, ContentOrigin, DiscoveredFile,
    ReloadRefusal,
};

fn source(id: &str, url: Option<&str>, path: Option<&str>, updated_at: i128) -> Source {
    Source {
        id: id.to_string(),
        url: url.map(|u| u.to_string()),
        path: path.map(|p| p.to_string()),
        disposition: HostDisposition::Block,
        created_at: 0,
        updated_at,
    }
}

fn file(path: &str, disposition: HostDisposition) -> DiscoveredFile {
    DiscoveredFile { path: path.to_string(), disposition }
}

#[test]
fn test_derive_source_id() {
    assert_eq!(
        derive_source_id("/etc/blackhole/blocklist.d/ads.txt", HostDisposition::Block),
        "file-block-ads-txt"
    );
    assert_eq!(
        derive_source_id("/etc/blackhole/allowlist.d/personal.list", HostDisposition::Allow),
        "file-allow-personal-list"
    );
    assert_eq!(
        derive_source_id("/some/path/my--weird...file.txt", HostDisposition::Block),
        "file-block-my-weird-file-txt"
    );
}

#[test]
fn test_derive_source_id_truncation() {
    let long_name = "a".repeat(100) + ".txt";
    let path = format!("/etc/blackhole/blocklist.d/{}", long_name);
    let id = derive_source_id(&path, HostDisposition::Block);
    assert!(id.len() <= 64);
    assert!(id.starts_with("file-block-"));
}

#[test]
fn derived_ids_are_valid_and_trimmed() {
    assert_eq!(source_id_from_file_name("..hidden--list..", HostDisposition::Allow), "file-allow-hidden-list");
    assert_eq!(source_id_from_file_name("", HostDisposition::Block), "file-block-");
    assert_eq!(source_id_from_file_name("ünïcode.txt", HostDisposition::Block), "file-block-n-code-txt");
    assert_eq!(derive_source_id("/", HostDisposition::Block), "file-block-");
    let long = "b".repeat(80);
    let id = source_id_from_file_name(&long, HostDisposition::Allow);
    assert_eq!(id, format!("file-allow-{}", "b".repeat(53)));
    for id in [id, derive_source_id("/x/a b c.txt", HostDisposition::Block)] {
        assert!(validate_source_id(&id).is_ok());
        assert!(id.starts_with("file-"));
    }
}

#[test]
fn expected_files_last_one_wins() {
    let files = vec![
        file("/a/ads.txt", HostDisposition::Block),
        file("/b/ads.txt", HostDisposition::Block),
        file("/a/ok.txt", HostDisposition::Allow),
    ];
    let expected = expected_files(&files);
    assert_eq!(expected.len(), 2);
    let ads = expected.iter().find(|e| e.id == "file-block-ads-txt").unwrap();
    assert_eq!(ads.path, "/b/ads.txt");
    let ok = expected.iter().find(|e| e.id == "file-allow-ok-txt").unwrap();
    assert_eq!(ok.disposition, HostDisposition::Allow);
}

#[test]
fn sync_reconciles_file_sources() {
    let files = vec![file("/d/new.txt", HostDisposition::Block), file("/d/kept.txt", HostDisposition::Block)];
    let expected = expected_files(&files);
    let existing = vec![
        source("file-block-kept-txt", None, Some("/old/kept.txt"), 5),
        source("file-block-gone-txt", None, Some("/d/gone.txt"), 5),
        source("manual", None, None, 5),
    ];
    assert_eq!(orphaned_source_ids(&existing, &expected), vec!["file-block-gone-txt".to_string()]);

    let created = new_file_sources(&expected, &existing, 42);
    assert_eq!(created.len(), 1);
    assert_eq!(created[0].id, "file-block-new-txt");
    assert_eq!(created[0].url, None);
    assert_eq!(created[0].path, Some("/d/new.txt".to_string()));
    assert_eq!((created[0].created_at, created[0].updated_at), (42, 42));

    let refreshed = existing_file_refreshes(&expected, &existing);
    assert_eq!(refreshed.len(), 1);
    assert_eq!(refreshed[0].id, "file-block-kept-txt");
    assert_eq!(refreshed[0].path, Some("/d/kept.txt".to_string()));
    assert_eq!(refreshed[0].updated_at, 5);
}

#[test]
fn refresh_selection() {
    let created = || vec![source("file-block-a", None, Some("/a"), 1)];
    let kept = || vec![source("file-block-b", None, Some("/b"), 1)];
    let ids = |v: Vec<Source>| v.into_iter().map(|s| s.id).collect::<Vec<_>>();
    assert_eq!(ids(sources_to_refresh(created(), kept())), vec!["file-block-a", "file-block-b"]);
    assert_eq!(ids(sources_to_refresh(Vec::new(), kept())), vec!["file-block-b"]);
    assert_eq!(ids(sources_to_refresh(created(), Vec::new())), vec!["file-block-a"]);
}

#[test]
fn stale_sources_need_an_origin_and_age() {
    let all = vec![
        source("old-url", Some("http://x"), None, 10),
        source("old-manual", None, None, 10),
        source("fresh-path", None, Some("/p"), 95),
        source("old-path", None, Some("/p"), 89),
    ];
    let stale = stale_sources(all, 100, 10);
    let ids: Vec<_> = stale.iter().map(|s| s.id.as_str()).collect();
    assert_eq!(ids, vec!["old-url", "old-path"]);
}

#[test]
fn manual_reload_decisions() {
    assert_eq!(check_manual_reload(None).unwrap_err(), ReloadRefusal::NotFound);
    assert_eq!(
        check_manual_reload(Some(source("m", None, None, 0))).unwrap_err(),
        ReloadRefusal::ManuallyManaged
    );
    assert_eq!(ReloadRefusal::ManuallyManaged.message(), "Source is manually-managed");
    assert_eq!(ReloadRefusal::NotFound.message(), "Source not found");
    let ok = check_manual_reload(Some(source("u", Some("http://x"), None, 0))).unwrap();
    assert_eq!(ok.id, "u");
}

#[test]
fn content_comes_from_url_first() {
    match content_origin(&source("s", Some("http://x"), Some("/p"), 0)) {
        Some(ContentOrigin::Url(u)) => assert_eq!(u, "http://x"),
        _ => panic!("expected the URL"),
    }
    match content_origin(&source("s", None, Some("/p"), 0)) {
        Some(ContentOrigin::Path(p)) => assert_eq!(p, "/p"),
        _ => panic!("expected the path"),
    }
    assert!(content_origin(&source("s", None, None, 0)).is_none());
}

#[test]
fn lock_key_and_dotfiles() {
    assert_eq!(reload_lock_key("ads"), "blackhole:source-reload:ads");
    assert!(is_dotfile(".hidden"));
    assert!(!is_dotfile("ads.txt"));
    assert!(!is_dotfile(""));
}

#[test]
fn refreshed_hosts_take_source_and_time() {
    let parsed = parse_list("a.com\nb.org\n");
    let src = source("ads", Some("http://x"), None, 0);
    let hosts = hosts_for_refresh(&parsed, &src, 77);
    assert_eq!(hosts.len(), 2);
    assert_eq!(hosts[1].name, "b.org.");
    assert_eq!(hosts[1].source_id, "ads");
    assert_eq!(hosts[1].disposition, HostDisposition::Block);
    assert_eq!((hosts[1].created_at, hosts[1].updated_at), (77, 77));
}

#[test]
fn file_names_of_paths() {
    assert_eq!(derive_source_id("/lists/ads.txt/", HostDisposition::Block), "file-block-ads-txt");
    assert_eq!(derive_source_id("/lists/ads.txt/.", HostDisposition::Block), "file-block-ads-txt");
    assert_eq!(derive_source_id("lists//hosts", HostDisposition::Allow), "file-allow-hosts");
    assert_eq!(derive_source_id("/lists/..", HostDisposition::Block), "file-block-");
    assert_eq!(derive_source_id(".", HostDisposition::Block), "file-block-");
    assert_eq!(derive_source_id("", HostDisposition::Block), "file-block-");
    assert_eq!(derive_source_id("./.hidden", HostDisposition::Block), "file-block-hidden");
    for p in ["/a/--x--y--", "/a/-_-", "/a/b..c"] {
        assert!(!derive_source_id(p, HostDisposition::Block).contains("--"));
    }
}
