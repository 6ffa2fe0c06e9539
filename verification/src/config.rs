//! Settings of the daemon and their defaults.

use vstd::prelude::*;
use hickory_server::resolver::config::NameServerConfigGroup;
use crate::model::NANOS_PER_SEC;
use crate::pauses::MAX_SPAN_SECS;
use crate::text::push_all;

verus! {

/// All settings.
pub struct Config {
    pub database: DatabaseConfig,
    pub api: ApiConfig,
    pub resolver: ResolverConfig,
    pub eventstore: EventStoreConfig,
    pub sourceloader: SourceLoaderConfig,
    pub blocklist: BlocklistConfig,
}

/// Where the database lives.
pub struct DatabaseConfig {
    pub path: String,
}

/// The port of the management API and web UI.
pub struct ApiConfig {
    pub port: u16,
}

/// The DNS resolver: its port, upstream servers, cache size and local zones.
pub struct ResolverConfig {
    pub port: u16,
    pub upstream: UpstreamConfig,
    pub cache_size: usize,
    pub zones: Vec<ZoneConfig>,
}

/// A zone served from a zone file.
pub struct ZoneConfig {
    pub name: String,
    pub file: String,
}

/// The upstream DNS servers: a well-known provider, or a list of servers.
pub enum UpstreamConfig {
    Named { provider: String },
    Custom { servers: Vec<String> },
}

/// The event store (Redis or Valkey): its endpoint and the lifetimes it keeps, in seconds.
pub struct EventStoreConfig {
    pub endpoint: String,
    pub event_ttl_secs: i64,
    pub client_ttl_secs: i64,
    pub sweeper_interval_secs: i64,
}

/// How often sources are refreshed and when a source is stale, in seconds.
pub struct SourceLoaderConfig {
    pub run_interval_secs: i64,
    pub stale_age_secs: i64,
    /// The directories whose files are blocklists.
    pub blocklist_dirs: Vec<String>,
    /// The directories whose files are allowlists.
    pub allowlist_dirs: Vec<String>,
}

/// How query names are matched against wildcard entries.
pub struct BlocklistConfig {
    pub wildcard_match: bool,
    pub min_wildcard_depth: u8,
}

/// One hour.
pub fn default_event_ttl_secs() -> (r: i64)
    ensures
        r == 3600,
{
    3600
}

/// One day.
pub fn default_client_ttl_secs() -> (r: i64)
    ensures
        r == 86400,
{
    86400
}

/// Fifteen minutes.
pub fn default_sweeper_interval_secs() -> (r: i64)
    ensures
        r == 900,
{
    900
}

/// Six hours.
pub fn default_run_interval_secs() -> (r: i64)
    ensures
        r == 21600,
{
    21600
}

/// Seven days.
pub fn default_stale_age_secs() -> (r: i64)
    ensures
        r == 604800,
{
    604800
}

impl Default for DatabaseConfig {
    fn default() -> (r: Self)
        ensures
            r.path@ == "/var/db/blackhole/blackholed.db"@,
    {
        DatabaseConfig { path: "/var/db/blackhole/blackholed.db".to_string() }
    }
}

impl Default for ApiConfig {
    fn default() -> (r: Self)
        ensures
            r.port == 5355,
    {
        ApiConfig { port: 5355 }
    }
}

impl Default for UpstreamConfig {
    fn default() -> (r: Self)
        ensures
            r matches UpstreamConfig::Named { provider } && provider@ == "cloudflare"@,
    {
        UpstreamConfig::Named { provider: "cloudflare".to_string() }
    }
}

impl Default for ResolverConfig {
    fn default() -> (r: Self)
        ensures
            r.port == 5353,
            r.upstream matches UpstreamConfig::Named { provider } && provider@ == "cloudflare"@,
            r.cache_size == 10000,
            r.zones@.len() == 0,
    {
        ResolverConfig {
            port: 5353,
            upstream: UpstreamConfig::default(),
            cache_size: 10000,
            zones: Vec::new(),
        }
    }
}

impl Default for EventStoreConfig {
    fn default() -> (r: Self)
        ensures
            r.endpoint@ == "redis://127.0.0.1:6379"@,
            r.event_ttl_secs == 3600,
            r.client_ttl_secs == 86400,
            r.sweeper_interval_secs == 900,
    {
        EventStoreConfig {
            endpoint: "redis://127.0.0.1:6379".to_string(),
            event_ttl_secs: default_event_ttl_secs(),
            client_ttl_secs: default_client_ttl_secs(),
            sweeper_interval_secs: default_sweeper_interval_secs(),
        }
    }
}

impl Default for SourceLoaderConfig {
    fn default() -> (r: Self)
        ensures
            r.run_interval_secs == 21600,
            r.stale_age_secs == 604800,
            r.blocklist_dirs@.len() == 1 && r.blocklist_dirs@[0]@ == "/etc/blackhole/blocklist.d"@,
            r.allowlist_dirs@.len() == 1 && r.allowlist_dirs@[0]@ == "/etc/blackhole/allowlist.d"@,
    {
        SourceLoaderConfig {
            run_interval_secs: default_run_interval_secs(),
            stale_age_secs: default_stale_age_secs(),
            blocklist_dirs: vec!["/etc/blackhole/blocklist.d".to_string()],
            allowlist_dirs: vec!["/etc/blackhole/allowlist.d".to_string()],
        }
    }
}

impl Default for BlocklistConfig {
    fn default() -> (r: Self)
        ensures
            r.wildcard_match,
            r.min_wildcard_depth == 2,
    {
        BlocklistConfig { wildcard_match: true, min_wildcard_depth: 2 }
    }
}

impl Default for Config {
    fn default() -> (r: Self)
        ensures
            r.database.path@ == "/var/db/blackhole/blackholed.db"@,
            r.api.port == 5355,
            r.resolver.port == 5353,
            r.resolver.cache_size == 10000,
            r.resolver.zones@.len() == 0,
            r.resolver.upstream matches UpstreamConfig::Named { provider } && provider@
                == "cloudflare"@,
            r.eventstore.endpoint@ == "redis://127.0.0.1:6379"@,
            r.eventstore.event_ttl_secs == 3600,
            r.eventstore.client_ttl_secs == 86400,
            r.eventstore.sweeper_interval_secs == 900,
            r.sourceloader.run_interval_secs == 21600,
            r.sourceloader.stale_age_secs == 604800,
            r.blocklist.wildcard_match,
            r.blocklist.min_wildcard_depth == 2,
    {
        Config {
            database: DatabaseConfig::default(),
            api: ApiConfig::default(),
            resolver: ResolverConfig::default(),
            eventstore: EventStoreConfig::default(),
            sourceloader: SourceLoaderConfig::default(),
            blocklist: BlocklistConfig::default(),
        }
    }
}

/// A time span of `secs` seconds, in nanoseconds.
pub open spec fn span_of_secs(secs: i64) -> i128 {
    (secs * NANOS_PER_SEC) as i128
}

/// Whether a time span can hold `secs` seconds.
pub open spec fn holds_span(secs: i64) -> bool {
    -MAX_SPAN_SECS <= secs <= MAX_SPAN_SECS
}

/// A time span of `secs` seconds, in nanoseconds.
fn span(secs: i64) -> (r: i128)
    requires
        holds_span(secs),
    ensures
        r == span_of_secs(secs),
{
    secs as i128 * NANOS_PER_SEC
}

impl EventStoreConfig {
    /// How long block events are kept, in nanoseconds.
    pub fn event_ttl(&self) -> (r: i128)
        requires
            holds_span(self.event_ttl_secs),
        ensures
            r == span_of_secs(self.event_ttl_secs),
    {
        span(self.event_ttl_secs)
    }

    /// How long a client is kept after its last blocked query, in nanoseconds.
    pub fn client_ttl(&self) -> (r: i128)
        requires
            holds_span(self.client_ttl_secs),
        ensures
            r == span_of_secs(self.client_ttl_secs),
    {
        span(self.client_ttl_secs)
    }

    /// How often stale entries are swept, in nanoseconds.
    pub fn sweeper_interval(&self) -> (r: i128)
        requires
            holds_span(self.sweeper_interval_secs),
        ensures
            r == span_of_secs(self.sweeper_interval_secs),
    {
        span(self.sweeper_interval_secs)
    }
}

impl SourceLoaderConfig {
    /// How often sources are checked for staleness, in nanoseconds.
    pub fn run_interval(&self) -> (r: i128)
        requires
            holds_span(self.run_interval_secs),
        ensures
            r == span_of_secs(self.run_interval_secs),
    {
        span(self.run_interval_secs)
    }

    /// How old a source gets before it is refreshed, in nanoseconds.
    pub fn stale_age(&self) -> (r: i128)
        requires
            holds_span(self.stale_age_secs),
        ensures
            r == span_of_secs(self.stale_age_secs),
    {
        span(self.stale_age_secs)
    }
}

/// What `str::to_lowercase` makes of a text.
pub uninterp spec fn spec_to_lowercase(s: Seq<char>) -> Seq<char>;

/// `str::to_lowercase` of std. Claimed: the result is `spec_to_lowercase(s)`; the
/// Unicode case mapping itself is left unsaid.
#[verifier::external_body]
fn to_lowercase(s: &str) -> (r: String)
    ensures
        r@ == spec_to_lowercase(s@),
{
    s.to_lowercase()
}

/// What `{:?}` writes for a list of texts.
pub uninterp spec fn spec_debug_list(items: Seq<Seq<char>>) -> Seq<char>;

/// Formats `items` with `{:?}`. Claimed: the result is `spec_debug_list` of the
/// texts; how `Debug` quotes and escapes them is left unsaid.
#[verifier::external_body]
fn debug_list(items: &Vec<String>) -> (r: String)
    ensures
        r@ == spec_debug_list(crate::text::views(items@)),
{
    format!("{:?}", items)
}

/// The upstream DNS providers the daemon knows.
#[derive(Debug, PartialEq, Eq, Structural, Clone, Copy)]
pub enum Provider {
    Cloudflare,
    Google,
    Quad9,
    CloudflareTls,
    GoogleTls,
    Quad9Tls,
}

/// The provider a lowercased name names.
pub open spec fn provider_named(name: Seq<char>) -> Option<Provider> {
    if name == "cloudflare"@ {
        Some(Provider::Cloudflare)
    } else if name == "google"@ {
        Some(Provider::Google)
    } else if name == "quad9"@ {
        Some(Provider::Quad9)
    } else if name == "cloudflare_tls"@ {
        Some(Provider::CloudflareTls)
    } else if name == "google_tls"@ {
        Some(Provider::GoogleTls)
    } else if name == "quad9_tls"@ {
        Some(Provider::Quad9Tls)
    } else {
        None
    }
}

/// Which provider an upstream setting picks, or why it picks none: the provider's
/// name is matched without regard to case; custom servers are not supported yet.
pub open spec fn spec_upstream_provider(u: UpstreamConfig) -> Result<Provider, Seq<char>> {
    match u {
        UpstreamConfig::Named { provider } => match provider_named(spec_to_lowercase(provider@)) {
            Some(p) => Ok(p),
            None => Err("Unknown DNS provider: "@ + provider@),
        },
        UpstreamConfig::Custom { servers } => Err(
            "Custom DNS servers not yet implemented: "@ + spec_debug_list(crate::text::views(servers@)),
        ),
    }
}

impl UpstreamConfig {
    /// Which provider the setting picks, or the message of why it picks none.
    pub fn provider(&self) -> (r: Result<Provider, String>)
        ensures
            match spec_upstream_provider(*self) {
                Ok(p) => r == Ok::<Provider, String>(p),
                Err(m) => r matches Err(e) && e@ == m,
            },
    {
        match self {
            UpstreamConfig::Named { provider } => {
                let name = to_lowercase(provider.as_str());
                let n = name.as_str();
                if crate::text::str_eq(n, "cloudflare") {
                    Ok(Provider::Cloudflare)
                } else if crate::text::str_eq(n, "google") {
                    Ok(Provider::Google)
                } else if crate::text::str_eq(n, "quad9") {
                    Ok(Provider::Quad9)
                } else if crate::text::str_eq(n, "cloudflare_tls") {
                    Ok(Provider::CloudflareTls)
                } else if crate::text::str_eq(n, "google_tls") {
                    Ok(Provider::GoogleTls)
                } else if crate::text::str_eq(n, "quad9_tls") {
                    Ok(Provider::Quad9Tls)
                } else {
                    let mut m = String::new();
                    push_all(&mut m, "Unknown DNS provider: ");
                    push_all(&mut m, provider.as_str());
                    Err(m)
                }
            },
            UpstreamConfig::Custom { servers } => {
                let mut m = String::new();
                push_all(&mut m, "Custom DNS servers not yet implemented: ");
                let listed = debug_list(servers);
                push_all(&mut m, listed.as_str());
                Err(m)
            },
        }
    }

    /// The name servers of the provider the setting picks; the message of why it
    /// picks none otherwise.
    pub fn to_nameserver_config_group(&self) -> (r: Result<NameServerConfigGroup, String>)
        ensures
            match spec_upstream_provider(*self) {
                Ok(p) => r matches Ok(g) && spec_servers(g) == provider_servers(p),
                Err(m) => r matches Err(e) && e@ == m,
            },
    {
        match self.provider() {
            Ok(Provider::Cloudflare) => Ok(cloudflare_servers()),
            Ok(Provider::Google) => Ok(google_servers()),
            Ok(Provider::Quad9) => Ok(quad9_servers()),
            Ok(Provider::CloudflareTls) => Ok(cloudflare_tls_servers()),
            Ok(Provider::GoogleTls) => Ok(google_tls_servers()),
            Ok(Provider::Quad9Tls) => Ok(quad9_tls_servers()),
            Err(m) => Err(m),
        }
    }
}

/// The name servers of hickory's resolver configuration.
#[verifier::external_type_specification]
#[verifier::external_body]
pub struct ExNameServerConfigGroup(NameServerConfigGroup);


/// One name server of hickory's resolver configuration. Nothing here uses it on its
/// own; the group reads as a list of them, so declaring the group needs it too.
#[verifier::external_type_specification]
#[verifier::external_body]
pub struct ExNameServerConfig(hickory_server::resolver::config::NameServerConfig);

/// A name server seen as plain values: its address as `IpAddr` displays it, its port,
/// its protocol as hickory's `Protocol` displays it, the name its TLS certificate is
/// checked against, and whether negative answers from it are trusted.
pub type ServerView = (Seq<char>, u16, Seq<char>, Option<Seq<char>>, bool);

/// The name servers a group holds, in order.
pub uninterp spec fn spec_servers(g: NameServerConfigGroup) -> Seq<(Seq<char>, u16, Seq<char>, Option<Seq<char>>, bool)>;

/// The servers hickory makes for plain DNS to the addresses `ips`: for each, one over
/// UDP and one over TCP, on port 53, trusting negative answers.
pub open spec fn clear_servers(ips: Seq<Seq<char>>) -> Seq<ServerView>
    decreases ips.len(),
{
    if ips.len() == 0 {
        Seq::empty()
    } else {
        clear_servers(ips.drop_last()) + seq![
            (ips.last(), 53u16, "udp"@, None::<Seq<char>>, true),
            (ips.last(), 53u16, "tcp"@, None::<Seq<char>>, true),
        ]
    }
}

/// The servers hickory makes for DNS over TLS to the addresses `ips`: one for each, on
/// port 853, checked against `tls_name`, trusting negative answers.
pub open spec fn tls_servers(ips: Seq<Seq<char>>, tls_name: Seq<char>) -> Seq<ServerView> {
    ips.map_values(|ip: Seq<char>| (ip, 853u16, "tls"@, Some(tls_name), true))
}

/// Cloudflare's addresses.
pub open spec fn cloudflare_ips() -> Seq<Seq<char>> {
    seq!["1.1.1.1"@, "1.0.0.1"@, "2606:4700:4700::1111"@, "2606:4700:4700::1001"@]
}

/// Google's addresses.
pub open spec fn google_ips() -> Seq<Seq<char>> {
    seq!["8.8.8.8"@, "8.8.4.4"@, "2001:4860:4860::8888"@, "2001:4860:4860::8844"@]
}

/// Quad9's addresses (its filtering service).
pub open spec fn quad9_ips() -> Seq<Seq<char>> {
    seq!["9.9.9.9"@, "149.112.112.112"@, "2620:fe::fe"@, "2620:fe::fe:9"@]
}

/// The servers of a provider.
pub open spec fn provider_servers(p: Provider) -> Seq<ServerView> {
    match p {
        Provider::Cloudflare => clear_servers(cloudflare_ips()),
        Provider::Google => clear_servers(google_ips()),
        Provider::Quad9 => clear_servers(quad9_ips()),
        Provider::CloudflareTls => tls_servers(cloudflare_ips(), "cloudflare-dns.com"@),
        Provider::GoogleTls => tls_servers(google_ips(), "dns.google"@),
        Provider::Quad9Tls => tls_servers(quad9_ips(), "dns.quad9.net"@),
    }
}

/// `NameServerConfigGroup::cloudflare` of hickory's resolver. Claimed, as its source
/// shows: UDP and TCP servers on port 53 for Cloudflare's four addresses.
#[verifier::external_body]
fn cloudflare_servers() -> (r: NameServerConfigGroup)
    ensures
        spec_servers(r) == provider_servers(Provider::Cloudflare),
{
    NameServerConfigGroup::cloudflare()
}

/// `NameServerConfigGroup::google` of hickory's resolver. Claimed, as its source
/// shows: UDP and TCP servers on port 53 for Google's four addresses.
#[verifier::external_body]
fn google_servers() -> (r: NameServerConfigGroup)
    ensures
        spec_servers(r) == provider_servers(Provider::Google),
{
    NameServerConfigGroup::google()
}

/// `NameServerConfigGroup::quad9` of hickory's resolver. Claimed, as its source
/// shows: UDP and TCP servers on port 53 for Quad9's four addresses.
#[verifier::external_body]
fn quad9_servers() -> (r: NameServerConfigGroup)
    ensures
        spec_servers(r) == provider_servers(Provider::Quad9),
{
    NameServerConfigGroup::quad9()
}

/// `NameServerConfigGroup::cloudflare_tls` of hickory's resolver. Claimed, as its
/// source shows: TLS servers on port 853 for Cloudflare's four addresses, named
/// `cloudflare-dns.com`.
#[verifier::external_body]
fn cloudflare_tls_servers() -> (r: NameServerConfigGroup)
    ensures
        spec_servers(r) == provider_servers(Provider::CloudflareTls),
{
    NameServerConfigGroup::cloudflare_tls()
}

/// `NameServerConfigGroup::google_tls` of hickory's resolver. Claimed, as its source
/// shows: TLS servers on port 853 for Google's four addresses, named `dns.google`.
#[verifier::external_body]
fn google_tls_servers() -> (r: NameServerConfigGroup)
    ensures
        spec_servers(r) == provider_servers(Provider::GoogleTls),
{
    NameServerConfigGroup::google_tls()
}

/// `NameServerConfigGroup::quad9_tls` of hickory's resolver. Claimed, as its source
/// shows: TLS servers on port 853 for Quad9's four addresses, named `dns.quad9.net`.
#[verifier::external_body]
fn quad9_tls_servers() -> (r: NameServerConfigGroup)
    ensures
        spec_servers(r) == provider_servers(Provider::Quad9Tls),
{
    NameServerConfigGroup::quad9_tls()
}

} // verus!
