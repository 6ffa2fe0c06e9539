use blackholed::dnsmasq::pid_from_text;
use blackholed::loader::DefaultLoader;
use blackholed::model::{HostDisposition, InvalidDisposition, Source};
use blackholed::writer::{allowed_line, blocked_line};

#[test]
fn hosts_file_lines() {
    assert_eq!(blocked_line("ads.example.com"), "server=/ads.example.com/\n");
    assert_eq!(allowed_line("ok.example.com"), "server=/ok.example.com/#\n");
}

#[test]
fn pid_files() {
    assert_eq!(pid_from_text(" 1234\n"), Some(1234));
    assert_eq!(pid_from_text("abc"), None);
    assert_eq!(pid_from_text("99999999999"), None);
    assert_eq!(pid_from_text(""), None);
}

#[test]
fn dispositions() {
    assert_eq!(HostDisposition::Block.as_str(), "Block");
    assert_eq!(HostDisposition::Allow.as_str(), "Allow");
    assert_eq!(HostDisposition::from_str("Allow").unwrap(), HostDisposition::Allow);
    let e: InvalidDisposition = HostDisposition::from_str("allow").unwrap_err();
    assert_eq!(e.value, "allow");
}

#[test]
fn sources_and_loader() {
    let s = Source { id: "file-x".to_string(), url: None, path: None, disposition: HostDisposition::Block, created_at: 1, updated_at: 2 };
    assert!(s.is_file_managed());
    assert_eq!(s.duplicate(), s);
    let m = Source { id: "filex".to_string(), ..s.duplicate() };
    assert!(!m.is_file_managed());
    let _ = DefaultLoader::new();
}

#[test]
fn manual_sources() {
    let s = Source { id: "m".to_string(), url: None, path: None, disposition: HostDisposition::Allow, created_at: 0, updated_at: 0 };
    assert!(s.is_manual());
    let u = Source { url: Some("http://x".to_string()), ..s.duplicate() };
    assert!(!u.is_manual());
}
