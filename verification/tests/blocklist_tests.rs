use blackholed::blocklist::{BlocklistAuthority, BlocklistLookup, SearchOutcome};
use blackholed::config::BlocklistConfig;
use blackholed::model::{HostDisposition, SourceHost};
use blackholed::name::DnsName;

fn host(name: &str, d: HostDisposition) -> SourceHost {
    SourceHost { name: name.to_string(), source_id: "s".to_string(), disposition: d, created_at: 0, updated_at: 0 }
}

fn name(text: &str) -> DnsName {
    let t = text.trim_end_matches('.');
    DnsName { labels: t.split('.').map(|l| l.as_bytes().to_vec()).collect(), fqdn: true }
}

fn authority() -> BlocklistAuthority {
    let mut a = BlocklistAuthority::new(&BlocklistConfig { wildcard_match: true, min_wildcard_depth: 2 });
    a.reload(
        &vec![
            host("ads.example.com.", HostDisposition::Block),
            host("*.tracker.net.", HostDisposition::Block),
            host("*.com.", HostDisposition::Block),
            host("both.example.org.", HostDisposition::Block),
            host("not a name..", HostDisposition::Block),
        ],
        &vec![host("both.example.org.", HostDisposition::Allow), host("ok.tracker.net.", HostDisposition::Allow)],
    );
    a
}

#[test]
fn exact_and_wildcard_entries() {
    let a = authority();
    assert!(a.is_blocked(&name("ads.example.com.")));
    assert!(a.is_blocked(&name("x.tracker.net.")));
    assert!(a.is_blocked(&name("a.b.tracker.net.")));
    assert!(!a.is_blocked(&name("tracker.net.")));
    assert!(!a.is_blocked(&name("ok.tracker.net.")));
    assert!(!a.is_blocked(&name("both.example.org.")));
    assert!(!a.is_blocked(&name("unlisted.example.")));
    assert!(!a.is_blocked(&name("example.com.")));
    assert_eq!(a.disposition(&name("both.example.org.")), Some(HostDisposition::Allow));
}

#[test]
fn shallow_wildcards_do_not_match() {
    let mut a = BlocklistAuthority::new(&BlocklistConfig { wildcard_match: true, min_wildcard_depth: 3 });
    a.reload(
        &vec![host("*.tracker.net.", HostDisposition::Block), host("*.x.tracker.net.", HostDisposition::Block)],
        &vec![],
    );
    assert!(!a.is_blocked(&name("x.tracker.net.")));
    assert!(a.is_blocked(&name("y.x.tracker.net.")));
    assert!(!a.is_blocked(&name("z.y.tracker.net.")));
    let mut off = BlocklistAuthority::new(&BlocklistConfig { wildcard_match: false, min_wildcard_depth: 0 });
    off.reload(&vec![host("*.tracker.net.", HostDisposition::Block)], &vec![]);
    assert!(!off.is_blocked(&name("y.x.tracker.net.")));
}

#[test]
fn single_host_reload() {
    let mut a = authority();
    a.reload_host("ads.example.com.", &vec![host("ads.example.com.", HostDisposition::Allow)]).unwrap();
    assert!(!a.is_blocked(&name("ads.example.com.")));
    a.reload_host("new.example.", &vec![host("new.example.", HostDisposition::Block)]).unwrap();
    assert!(a.is_blocked(&name("new.example.")));
    a.reload_host("new.example.", &vec![]).unwrap();
    assert!(!a.is_blocked(&name("new.example.")));
    let long = format!("{}.com.", "a".repeat(70));
    assert_eq!(a.reload_host(&long, &vec![]).unwrap_err().name, long);
}

#[test]
fn pauses_let_blocked_queries_through() {
    let mut a = authority();
    let ads = name("ads.example.com.");
    assert_eq!(a.search(&ads, "10.0.0.1"), SearchOutcome::Blocked);
    a.set_client_pause("10.0.0.1".to_string(), true);
    assert_eq!(a.search(&ads, "10.0.0.1"), SearchOutcome::PausedBlock);
    assert_eq!(a.search(&ads, "10.0.0.2"), SearchOutcome::Blocked);
    assert_eq!(a.search(&name("fine.example."), "10.0.0.1"), SearchOutcome::NotBlocked);
    a.set_client_pause("10.0.0.1".to_string(), false);
    assert!(!a.is_paused("10.0.0.1"));
    a.set_global_pause(true);
    assert_eq!(a.search(&ads, "10.0.0.2"), SearchOutcome::PausedBlock);
    a.set_global_pause(false);
    a.set_paused_clients(&vec!["10.0.0.3".to_string()]);
    assert!(a.is_paused("10.0.0.3"));
    assert!(!a.is_paused("10.0.0.1"));
    assert!(BlocklistLookup {}.is_empty());
}
