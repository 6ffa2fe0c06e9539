use blackholed::api::ApiError;
use blackholed::model::{HostDisposition, Source};
use blackholed::ui::{
    allowed_notice, allowlist_host, client_row, client_target, forwarded_address, form_disposition, host_from_form,
    is_htmx_value, new_source_form, source_from_form, source_page, AddHostForm, AllowlistRequest, ClientTarget,
    CreateSourceForm,
};

fn bad_request<T>(r: Result<T, ApiError>) -> String {
    match r {
        Err(ApiError::BadRequest(m)) => m,
        _ => panic!("expected a bad request"),
    }
}

fn manual() -> Source {
    Source { id: "mine".to_string(), url: None, path: None, disposition: HostDisposition::Block, created_at: 0, updated_at: 0 }
}

#[test]
fn source_forms() {
    let form = |id: &str, d: &str, url: Option<&str>| CreateSourceForm {
        id: id.to_string(),
        disposition: d.to_string(),
        url: url.map(|u| u.to_string()),
    };
    let s = source_from_form(form("ads", "Block", Some("")), 8).unwrap();
    assert_eq!(s.url, None);
    assert_eq!(s.disposition, HostDisposition::Block);
    let s = source_from_form(form("ok", "Allow", Some("http://l")), 8).unwrap();
    assert_eq!(s.url, Some("http://l".to_string()));
    assert_eq!(bad_request(source_from_form(form("ads", "block", None), 8)), "Invalid disposition");
    assert_eq!(
        bad_request(source_from_form(form("file-ads", "nope", None), 8)),
        "Source IDs starting with 'file-' are reserved for system-managed file sources"
    );
    assert!(new_source_form().error.is_none());
}

#[test]
fn host_forms() {
    let form = |n: &str, d: &str| AddHostForm { name: n.to_string(), disposition: d.to_string() };
    let h = host_from_form(&manual(), &form("x.org", "Allow"), 4).unwrap();
    assert_eq!((h.name.as_str(), h.source_id.as_str(), h.disposition), ("x.org.", "mine", HostDisposition::Allow));
    assert_eq!(bad_request(host_from_form(&manual(), &form("x.org", "?"), 4)), "Invalid disposition");
    assert_eq!(bad_request(host_from_form(&manual(), &form("", "?"), 4)), "Domain name cannot be empty");
    let mut managed = manual();
    managed.path = Some("/p".to_string());
    assert_eq!(
        bad_request(host_from_form(&managed, &form("x.org", "Allow"), 4)),
        "Cannot manually add hosts to automatically-managed source"
    );
    assert_eq!(form_disposition("Block").unwrap(), HostDisposition::Block);
}

#[test]
fn allowlisting() {
    let h = allowlist_host(&AllowlistRequest { domain: "tracker.example".to_string() }, 6).unwrap();
    assert_eq!(h.name, "tracker.example.");
    assert_eq!(h.source_id, "webmanaged");
    assert_eq!(h.disposition, HostDisposition::Allow);
    let notice = allowed_notice("tracker.example.");
    assert!(notice.contains("<strong class=\"font-mono\">tracker.example.</strong> has been allowlisted permanently"));
    assert!(notice.starts_with("<div class=\"p-4 border"));
}

#[test]
fn pages_and_clients() {
    assert_eq!(source_page("ads"), "/sources/ads");
    assert!(matches!(client_target("self"), ClientTarget::Current));
    match client_target("10.1.1.1") {
        ClientTarget::Address(a) => assert_eq!(a, "10.1.1.1"),
        _ => panic!("expected an address"),
    }
    assert!(is_htmx_value(Some("true")));
    assert!(!is_htmx_value(Some("True")));
    assert!(!is_htmx_value(None));
    assert_eq!(forwarded_address(" 203.0.113.5 , 10.0.0.1"), "203.0.113.5");
    assert_eq!(forwarded_address("198.51.100.7"), "198.51.100.7");
    let row = client_row("10.0.0.9".to_string(), 3, Some(Some(100)), 50);
    assert_eq!((row.is_paused, row.pause_expires), (Some(true), Some(100)));
    let row = client_row("bad".to_string(), 3, None, 50);
    assert_eq!((row.is_paused, row.pause_expires), (None, None));
}

#[test]
fn web_source() {
    let s = blackholed::ui::web_managed_source(12);
    assert_eq!(s.id, "webmanaged");
    assert!(s.is_manual());
    assert_eq!(s.disposition, HostDisposition::Allow);
    assert_eq!((s.created_at, s.updated_at), (12, 12));
}
