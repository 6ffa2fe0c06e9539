use blackholed::api::checks::{
    check_deletable, check_host_edit, check_new_source_id, check_reloadable, manual_host, source_from_request,
    source_not_found, Front, HostEdit,
};
use blackholed::api::model::{
    decode_next_token, encode_next_token, host_to_response, offset_from_token, page_from_fetched, page_window,
    source_to_response, CreateSourceRequest, PAGE_SIZE,
};
use blackholed::api::ApiError;
use blackholed::model::{HostDisposition, Source, SourceHost};

fn source(id: &str, url: Option<&str>, path: Option<&str>) -> Source {
    Source {
        id: id.to_string(),
        url: url.map(|u| u.to_string()),
        path: path.map(|p| p.to_string()),
        disposition: HostDisposition::Allow,
        created_at: 3,
        updated_at: 4,
    }
}

fn bad_request<T>(r: Result<T, ApiError>) -> String {
    match r {
        Err(ApiError::BadRequest(m)) => m,
        _ => panic!("expected a bad request"),
    }
}

#[test]
fn tokens_round_trip() {
    assert_eq!(encode_next_token(100), "MTAw");
    assert_eq!(encode_next_token(0), "MA");
    for n in [0usize, 7, 100, 12345, usize::MAX] {
        assert_eq!(decode_next_token(&encode_next_token(n)), Some(n));
    }
    assert_eq!(decode_next_token("!!"), None);
    assert_eq!(decode_next_token("YWJj"), None);
    assert_eq!(decode_next_token("KzU"), Some(5));
}

#[test]
fn offsets_from_tokens() {
    assert_eq!(offset_from_token(&None), 0);
    assert_eq!(offset_from_token(&Some("MTAw".to_string())), 100);
    assert_eq!(offset_from_token(&Some("garbage!".to_string())), 0);
}

#[test]
fn pages() {
    let full: Vec<usize> = (0..=PAGE_SIZE).collect();
    let page = page_from_fetched(full, 200);
    assert_eq!(page.items.len(), PAGE_SIZE);
    assert_eq!(page.items[PAGE_SIZE - 1], PAGE_SIZE - 1);
    assert_eq!(page.next_token, Some(encode_next_token(300)));
    let last = page_from_fetched(vec![1, 2, 3], 0);
    assert_eq!(last.items, vec![1, 2, 3]);
    assert_eq!(last.next_token, None);
}

#[test]
fn numbered_pages() {
    assert_eq!(page_window(0, 0), (0, 1));
    assert_eq!(page_window(1, 50), (0, 50));
    assert_eq!(page_window(3, 500), (200, 100));
}

#[test]
fn responses() {
    let r = source_to_response(source("file-block-x", None, Some("/x")));
    assert!(r.is_file_managed);
    assert_eq!(r.path, Some("/x".to_string()));
    assert!(!source_to_response(source("manual", None, None)).is_file_managed);
    let h = host_to_response(SourceHost {
        name: "a.".to_string(),
        source_id: "s".to_string(),
        disposition: HostDisposition::Block,
        created_at: 1,
        updated_at: 2,
    });
    assert_eq!((h.name.as_str(), h.source_id.as_str(), h.created_at, h.updated_at), ("a.", "s", 1, 2));
}

#[test]
fn creating_sources() {
    let req = |id: &str| CreateSourceRequest {
        id: id.to_string(),
        url: Some("http://lists/ads".to_string()),
        path: Some("/ignored".to_string()),
        disposition: HostDisposition::Block,
    };
    let s = source_from_request(req("ads"), 9).unwrap();
    assert_eq!(s.id, "ads");
    assert_eq!(s.url, Some("http://lists/ads".to_string()));
    assert_eq!(s.path, None);
    assert_eq!((s.created_at, s.updated_at), (9, 9));
    assert_eq!(
        bad_request(source_from_request(req("file-x"), 9)),
        "Source IDs starting with 'file-' are reserved for system-managed file sources"
    );
    assert_eq!(bad_request(source_from_request(req("a b"), 9)), "Source ID must contain only alphanumeric characters and hyphens");
    assert_eq!(bad_request(check_new_source_id("")), "Source ID must be between 1 and 64 characters");
    assert!(check_new_source_id("files").is_ok());
}

#[test]
fn refusals() {
    match source_not_found("abc") {
        ApiError::NotFound(m) => assert_eq!(m, "Source abc not found"),
        _ => panic!("expected not found"),
    }
    let file_src = source("file-block-a", None, Some("/a"));
    assert_eq!(
        bad_request(check_deletable(&file_src, Front::Api)),
        "Cannot delete file-managed sources via API. Remove the file from the directory instead."
    );
    assert_eq!(
        bad_request(check_deletable(&file_src, Front::Web)),
        "Cannot delete file-managed sources. Remove the file from the directory instead."
    );
    assert!(check_deletable(&source("mine", None, None), Front::Api).is_ok());
    assert_eq!(
        bad_request(check_reloadable(&source("mine", None, None))),
        "Cannot reload manually-managed source (no URL or path defined)"
    );
    assert!(check_reloadable(&source("u", Some("http://x"), None)).is_ok());
    let url_src = source("u", Some("http://x"), None);
    assert_eq!(
        bad_request(check_host_edit(&url_src, HostEdit::Add, Front::Api)),
        "Cannot manually add hosts to automatically-managed sources"
    );
    assert_eq!(
        bad_request(check_host_edit(&url_src, HostEdit::Delete, Front::Api)),
        "Cannot manually delete hosts from automatically-managed sources"
    );
    assert_eq!(
        bad_request(check_host_edit(&url_src, HostEdit::Add, Front::Web)),
        "Cannot manually add hosts to automatically-managed source"
    );
    assert_eq!(
        bad_request(check_host_edit(&url_src, HostEdit::Delete, Front::Web)),
        "Cannot manually delete hosts from automatically-managed source"
    );
    assert!(check_host_edit(&source("mine", None, None), HostEdit::Add, Front::Api).is_ok());
}

#[test]
fn manual_hosts() {
    let h = manual_host("mine", "ads.example.com", HostDisposition::Block, 5).unwrap();
    assert_eq!(h.name, "ads.example.com.");
    assert_eq!(h.source_id, "mine");
    assert_eq!((h.created_at, h.updated_at), (5, 5));
    assert_eq!(bad_request(manual_host("mine", "*.com", HostDisposition::Block, 5)), "Wildcard domains must have at least 2 labels (e.g., *.example.com)");
}

#[test]
fn tokens_that_name_no_offset() {
    assert_eq!(decode_next_token("LTE"), None);
    assert_eq!(decode_next_token(""), None);
    assert_eq!(decode_next_token("MTAw="), None);
    assert_eq!(decode_next_token(&encode_next_token(18446744073709551615)), Some(usize::MAX));
}
