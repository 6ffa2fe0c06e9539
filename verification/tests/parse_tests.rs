use blackholed::parse::{extract_hostname, is_hostname, parse_allowlist, parse_blocklist, strip_comments};

#[test]
fn test_parse_blocklist() {
    let input = vec![
        "#comment",
        "d1.example.com # comment",
        "127.0.0.1 d2.example.com #comment",
        "example.com",
        "127.0.0.1 d3.example.com",
        "www.zdjecie-facebook-zdj3425jeio.dkonto.pl",
    ]
    .join("\n");

    let expected = vec![
        "d1.example.com",
        "d2.example.com",
        "example.com",
        "d3.example.com",
        "www.zdjecie-facebook-zdj3425jeio.dkonto.pl",
    ];

    assert_eq!(parse_blocklist(&input), expected);
}

#[test]
fn blocklist_skips_localhost_and_bad_tokens() {
    let input = "127.0.0.1 localhost\n0.0.0.0 -bad.example.com\nok.example.com\n";
    assert_eq!(parse_blocklist(input), vec!["ok.example.com"]);
}

#[test]
fn allowlist_takes_whole_lines() {
    let input = "# allowed\nsafe.example.com\n0.0.0.0 also.example.org # why\n  b.net # c\n";
    assert_eq!(parse_allowlist(input), vec!["safe.example.com", "b.net"]);
}

#[test]
fn strip_comments_keeps_text_before_hash() {
    assert_eq!(strip_comments("a.com # note"), "a.com ");
    assert_eq!(strip_comments("# only"), "");
    assert_eq!(strip_comments("  b.com  "), "  b.com  ");
}

#[test]
fn extract_hostname_picks_second_field() {
    assert_eq!(extract_hostname("0.0.0.0 ads.example.com"), Some("ads.example.com".to_string()));
    assert_eq!(extract_hostname("ads.example.com"), Some("ads.example.com".to_string()));
    assert_eq!(extract_hostname(""), None);
    assert_eq!(extract_hostname("127.0.0.1 localhost"), None);
}

#[test]
fn hostname_pattern() {
    assert!(is_hostname("example.com"));
    assert!(is_hostname("a-b_c.example"));
    assert!(!is_hostname("localhost"));
    assert!(!is_hostname("-a.com"));
    assert!(!is_hostname("a..com"));
    assert!(!is_hostname("a.com."));
}

#[test]
fn joined_lists_parse_in_order() {
    let parts = ["a.com\n", "0.0.0.0 b.org\r", "", "# x\nc.net", "\n\n"];
    for a in parts {
        for b in parts {
            let joined = format!("{}\n{}", a, b);
            let mut expected = parse_blocklist(a);
            expected.extend(parse_blocklist(b));
            assert_eq!(parse_blocklist(&joined), expected);
            let mut allowed = parse_allowlist(a);
            allowed.extend(parse_allowlist(b));
            assert_eq!(parse_allowlist(&joined), allowed);
        }
    }
}
