use blackholed::pauses::{
    client_pause_info, global_pause_info, parse_duration_seconds, parse_i64, pause_active, pause_expiry,
    paused_clients, PERMANENT_PAUSE_END,
};
use blackholed::api::ApiError;

const SEC: i128 = 1_000_000_000;

#[test]
fn expiry_of_pauses() {
    assert_eq!(pause_expiry(1_000 * SEC, 3600), 4_600 * SEC);
    assert_eq!(pause_expiry(1_000 * SEC, 31_536_000_000), 253_370_764_800 * SEC);
    assert_eq!(pause_expiry(0, 252_423_993_600), PERMANENT_PAUSE_END);
    assert_eq!(pause_expiry(0, 31_535_999_999), 31_535_999_999 * SEC);
    assert_eq!(pause_expiry(1_000 * SEC, 40_000_000_000), PERMANENT_PAUSE_END);
    assert_eq!(pause_expiry(1_000 * SEC, -10), 990 * SEC);
}

#[test]
fn pause_in_force() {
    assert!(pause_active(Some(11), 10));
    assert!(!pause_active(Some(10), 10));
    assert!(!pause_active(None, 10));
    let g = global_pause_info(Some(5), 10);
    assert!(!g.is_paused);
    assert_eq!(g.expires_at, Some(5));
    let c = client_pause_info("10.0.0.2".to_string(), Some(50), 10);
    assert!(c.is_paused);
    assert_eq!(c.ip, "10.0.0.2");
}

#[test]
fn paused_clients_are_those_in_force() {
    let pauses = vec![
        ("10.0.0.1".to_string(), Some(20)),
        ("10.0.0.2".to_string(), None),
        ("10.0.0.3".to_string(), Some(5)),
        ("::1".to_string(), Some(100)),
    ];
    assert_eq!(paused_clients(&pauses, 10), vec!["10.0.0.1".to_string(), "::1".to_string()]);
}

#[test]
fn integers_read_like_std() {
    for t in ["0", "-0", "+7", "42", "-9223372036854775808", "9223372036854775807", "", "-", "+", "1a", " 1", "9223372036854775808", "-9223372036854775809", "99999999999999999999999"] {
        assert_eq!(parse_i64(t), t.parse::<i64>().ok(), "{}", t);
    }
}

#[test]
fn duration_field() {
    assert_eq!(parse_duration_seconds("3600").unwrap(), 3600);
    match parse_duration_seconds("an hour") {
        Err(ApiError::BadRequest(m)) => assert_eq!(m, "Invalid duration"),
        _ => panic!("expected a refusal"),
    }
}
