use blackholed::parser::{is_invalid_wildcard, normalize_domain, parse_line, parse_list, ParseLineError};

#[test]
fn test_parse_simple_domain() {
    let hosts = parse_list("example.com\n");
    assert_eq!(hosts.len(), 1);
    assert_eq!(hosts[0].name.to_string(), "example.com.");
}

#[test]
fn test_parse_with_sinkhole_ip() {
    let hosts = parse_list("0.0.0.0 blocked.com\n127.0.0.1 alsoblocked.com\n");
    assert_eq!(hosts.len(), 2);
    assert_eq!(hosts[0].name.to_string(), "blocked.com.");
    assert_eq!(hosts[1].name.to_string(), "alsoblocked.com.");
}

#[test]
fn test_parse_with_comments() {
    let hosts = parse_list("# This is a comment\nexample.com\n0.0.0.0 blocked.com # inline comment\n");
    assert_eq!(hosts.len(), 2);
}

#[test]
fn test_parse_wildcard_valid() {
    let hosts = parse_list("*.example.com\n");
    assert_eq!(hosts.len(), 1);
    assert_eq!(hosts[0].name.to_string(), "*.example.com.");
}

#[test]
fn test_parse_wildcard_invalid() {
    let hosts = parse_list("*.com\n");
    assert_eq!(hosts.len(), 0);
}

#[test]
fn test_parse_adds_trailing_dot() {
    let hosts = parse_list("example.com\n");
    assert!(hosts[0].name.to_string().ends_with('.'));
}

#[test]
fn test_parse_empty_lines() {
    let hosts = parse_list("example.com\n\n\nblocked.com\n");
    assert_eq!(hosts.len(), 2);
}

#[test]
fn test_parse_domain_already_has_trailing_dot() {
    let hosts = parse_list("example.com.\n");
    assert_eq!(hosts.len(), 1);
    assert_eq!(hosts[0].name.to_string(), "example.com.");
}

#[test]
fn test_parse_multiple_entries() {
    let hosts = parse_list("example.com\nbad.com\nevil.org\n");
    assert_eq!(hosts.len(), 3);
}

#[test]
fn test_normalize_domain() {
    assert_eq!(normalize_domain("example.com").unwrap(), "example.com.");
    assert_eq!(normalize_domain("example.com.").unwrap(), "example.com.");
    assert_eq!(normalize_domain("  example.com  ").unwrap(), "example.com.");
}

#[test]
fn test_normalize_domain_empty() {
    assert!(normalize_domain("").is_err());
    assert!(normalize_domain("   ").is_err());
}

#[test]
fn test_is_invalid_wildcard() {
    assert!(is_invalid_wildcard("*.com."));
    assert!(!is_invalid_wildcard("*.example.com."));
    assert!(!is_invalid_wildcard("example.com."));
    assert!(!is_invalid_wildcard("*.sub.example.com."));
}

#[test]
fn normalize_twice_changes_nothing() {
    for d in ["example.com", " a.b.c. ", "*.x.org"] {
        let once = normalize_domain(d).unwrap();
        assert_eq!(normalize_domain(&once).unwrap(), once);
    }
}

#[test]
fn parse_line_results() {
    assert!(matches!(parse_line("   "), Ok(None)));
    assert!(matches!(parse_line("# note"), Ok(None)));
    assert!(matches!(parse_line("*.com"), Ok(None)));
    let h = parse_line("  0.0.0.0 Ads.Example.COM  # x").unwrap().unwrap();
    assert_eq!(h.name, "ads.example.com.");
    assert_eq!(normalize_domain(" ").unwrap_err(), ParseLineError::EmptyDomain);
}

#[test]
fn parse_line_invalid_name_is_error() {
    let long_label = "a".repeat(70);
    let line = format!("{}.com", long_label);
    match parse_line(&line) {
        Err(ParseLineError::InvalidDomainName(n)) => assert_eq!(n, format!("{}.", line)),
        _ => panic!("expected an invalid name"),
    }
    assert_eq!(parse_list(&format!("{}\nok.com\n", line)).len(), 1);
}

#[test]
fn parse_list_without_final_newline() {
    let hosts = parse_list("a.com\r\nb.org");
    assert_eq!(hosts.len(), 2);
    assert_eq!(hosts[1].name, "b.org.");
}
