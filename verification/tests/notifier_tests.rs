use blackholed::notifier::{message, receive, BlocklistNotification, Received};

#[test]
fn payloads() {
    assert_eq!(BlocklistNotification::Full.to_payload(), "full");
    assert_eq!(BlocklistNotification::Host("ads.example.com".to_string()).to_payload(), "host:ads.example.com");
    assert_eq!(BlocklistNotification::GlobalPause(true).to_payload(), "global-pause:true");
    assert_eq!(
        BlocklistNotification::ClientPause("::1".to_string(), false).to_payload(),
        "client-pause:::1:false"
    );
}

#[test]
fn payload_roundtrip() {
    let all = vec![
        BlocklistNotification::Full,
        BlocklistNotification::Host("a.b.".to_string()),
        BlocklistNotification::GlobalPause(false),
        BlocklistNotification::ClientPause("fe80::1".to_string(), true),
        BlocklistNotification::ClientPause("10.0.0.1".to_string(), false),
    ];
    for n in all {
        assert_eq!(BlocklistNotification::from_payload(&n.to_payload()), Some(n));
    }
}

#[test]
fn unknown_payloads() {
    assert_eq!(BlocklistNotification::from_payload("fullx"), None);
    assert_eq!(BlocklistNotification::from_payload("global-pause:yes"), None);
    assert_eq!(BlocklistNotification::from_payload("client-pause:10.0.0.1"), None);
    assert_eq!(BlocklistNotification::from_payload("other"), None);
    assert_eq!(BlocklistNotification::from_payload("client-pause:foo:true"), None);
    assert_eq!(BlocklistNotification::from_payload("client-pause::true"), None);
    assert_eq!(BlocklistNotification::from_payload("client-pause:10.0.0.256:true"), None);
    assert_eq!(
        BlocklistNotification::from_payload("client-pause:2001:db8::1:true"),
        Some(BlocklistNotification::ClientPause("2001:db8::1".to_string(), true))
    );
}

#[test]
fn messages_between_daemons() {
    let raw = message("12-345", &BlocklistNotification::GlobalPause(true));
    assert_eq!(raw, "12-345:global-pause:true");
    assert!(matches!(receive(&raw, "12-345"), Received::Own));
    match receive(&raw, "99-1") {
        Received::Notify(n) => assert_eq!(n, BlocklistNotification::GlobalPause(true)),
        _ => panic!("expected a notification"),
    }
    assert!(matches!(receive("no separator", "99-1"), Received::Malformed));
    match receive("7-7:bogus", "99-1") {
        Received::Unknown(p) => assert_eq!(p, "bogus"),
        _ => panic!("expected an unknown payload"),
    }
}
