use blackholed::config::{
    default_client_ttl_secs, default_event_ttl_secs, default_run_interval_secs, default_stale_age_secs,
    default_sweeper_interval_secs, Config, EventStoreConfig, Provider, SourceLoaderConfig, UpstreamConfig,
};

#[test]
fn defaults() {
    let c = Config::default();
    assert_eq!(c.database.path, "/var/db/blackhole/blackholed.db");
    assert_eq!(c.api.port, 5355);
    assert_eq!(c.resolver.port, 5353);
    assert_eq!(c.resolver.cache_size, 10000);
    assert!(c.resolver.zones.is_empty());
    assert_eq!(c.eventstore.endpoint, "redis://127.0.0.1:6379");
    assert!(c.blocklist.wildcard_match);
    assert_eq!(c.blocklist.min_wildcard_depth, 2);
    assert_eq!(
        (default_event_ttl_secs(), default_client_ttl_secs(), default_sweeper_interval_secs()),
        (3600, 86400, 900)
    );
    assert_eq!((default_run_interval_secs(), default_stale_age_secs()), (21600, 604800));
}

#[test]
fn spans_in_nanoseconds() {
    let e = EventStoreConfig::default();
    assert_eq!(e.event_ttl(), 3600 * 1_000_000_000);
    assert_eq!(e.client_ttl(), 86400 * 1_000_000_000);
    assert_eq!(e.sweeper_interval(), 900 * 1_000_000_000);
    let s = SourceLoaderConfig::default();
    assert_eq!(s.run_interval(), 21600 * 1_000_000_000);
    assert_eq!(s.stale_age(), 604800 * 1_000_000_000);
}

#[test]
fn upstream_providers() {
    let named = |p: &str| UpstreamConfig::Named { provider: p.to_string() };
    assert_eq!(named("Cloudflare").provider(), Ok(Provider::Cloudflare));
    assert_eq!(named("GOOGLE_TLS").provider(), Ok(Provider::GoogleTls));
    assert_eq!(named("quad9").provider(), Ok(Provider::Quad9));
    assert_eq!(named("opendns").provider(), Err("Unknown DNS provider: opendns".to_string()));
    let custom = UpstreamConfig::Custom { servers: vec!["1.1.1.1".to_string()] };
    assert_eq!(custom.provider(), Err("Custom DNS servers not yet implemented: [\"1.1.1.1\"]".to_string()));
    assert!(named("cloudflare").to_nameserver_config_group().is_ok());
    assert!(named("quad9_tls").to_nameserver_config_group().is_ok());
    assert!(custom.to_nameserver_config_group().is_err());
}

fn servers(provider: &str) -> Vec<String> {
    let group = UpstreamConfig::Named { provider: provider.to_string() }.to_nameserver_config_group().unwrap();
    group
        .iter()
        .map(|s| {
            format!(
                "{} {} {} {}",
                s.protocol,
                s.socket_addr,
                s.tls_dns_name.clone().unwrap_or_default(),
                s.trust_negative_responses
            )
        })
        .collect()
}

#[test]
fn provider_server_groups() {
    assert_eq!(
        servers("Cloudflare"),
        vec![
            "udp 1.1.1.1:53  true",
            "tcp 1.1.1.1:53  true",
            "udp 1.0.0.1:53  true",
            "tcp 1.0.0.1:53  true",
            "udp [2606:4700:4700::1111]:53  true",
            "tcp [2606:4700:4700::1111]:53  true",
            "udp [2606:4700:4700::1001]:53  true",
            "tcp [2606:4700:4700::1001]:53  true",
        ]
    );
    assert_eq!(servers("google")[2], "udp 8.8.4.4:53  true");
    assert_eq!(servers("quad9")[7], "tcp [2620:fe::fe:9]:53  true");
    assert_eq!(
        servers("google_tls"),
        vec![
            "tls 8.8.8.8:853 dns.google true",
            "tls 8.8.4.4:853 dns.google true",
            "tls [2001:4860:4860::8888]:853 dns.google true",
            "tls [2001:4860:4860::8844]:853 dns.google true",
        ]
    );
    assert_eq!(servers("quad9_tls")[1], "tls 149.112.112.112:853 dns.quad9.net true");
    assert_eq!(servers("cloudflare_tls")[3], "tls [2606:4700:4700::1001]:853 cloudflare-dns.com true");
}
