//! Server configuration, driven by environment variables with working defaults.
//!
//! Every value keeps its default when the corresponding variable is unset or empty, so the
//! in-memory server boots with no configuration and no database. The environment itself is read by
//! the caller, which hands over the variables as pairs of key and value.
//!
//! The DNS listener defaults to the port `:5353`, not to the privileged `:53`.
use crate::digits;
use crate::text;
use vstd::prelude::*;

verus! {

/// Default admin dashboard listen address (all interfaces, internal port 9110).
pub const DEFAULT_BIND_ADDR: &'static str = "0.0.0.0:9110";

/// Default DNS listen address, on the alternative port `:5353`.
pub const DEFAULT_DNS_ADDR: &'static str = "0.0.0.0:5353";

/// Default apex zone name served by the seed.
pub const DEFAULT_ZONE_NAME: &'static str = "w33d.xyz";

/// Default primary nameserver (SOA MNAME and apex NS).
pub const DEFAULT_PRIMARY_NS: &'static str = "ns1.w33d.xyz";

/// Default hostmaster mailbox (SOA RNAME; `@` written as `.`).
pub const DEFAULT_HOSTMASTER: &'static str = "hostmaster.w33d.xyz";

/// Default public address used by the first-run seed.
pub const DEFAULT_SEED_IP: &'static str = "159.195.136.226";

/// Default interval, in seconds, at which the resolver reloads zone data from the store.
pub const DEFAULT_RELOAD_SECS: u64 = 15;

/// Default base URL of the audit service.
pub const DEFAULT_WATCHTOWER_URL: &'static str = "http://watchtower:8500";

/// Hard cap on how many records the dashboard renders.
pub const LIST_LIMIT: usize = 2000;

/// SOA refresh timer, in seconds.
pub const SOA_REFRESH: u32 = 7200;

/// SOA retry timer, in seconds.
pub const SOA_RETRY: u32 = 3600;

/// SOA expire timer, in seconds.
pub const SOA_EXPIRE: u32 = 1_209_600;

/// SOA minimum, which doubles as the TTL of negative answers.
pub const SOA_MINIMUM: u32 = 300;

/// Runtime configuration.
#[derive(Clone, Debug)]
pub struct Config {
    /// Admin dashboard listen address (`BIND_ADDR`).
    pub bind_addr: String,
    /// DNS server listen address, UDP and TCP (`LODESTAR_DNS_ADDR`).
    pub dns_addr: String,
    /// Apex zone name the seed creates (`LODESTAR_ZONE`).
    pub zone_name: String,
    /// Primary nameserver, used for the synthesized SOA MNAME (`LODESTAR_PRIMARY_NS`).
    pub primary_ns: String,
    /// Hostmaster mailbox, used for the synthesized SOA RNAME (`LODESTAR_HOSTMASTER`).
    pub hostmaster: String,
    /// Public address the seed wires to the apex, the wildcard and the subdomains
    /// (`LODESTAR_SEED_IP`).
    pub seed_ip: String,
    /// Resolver reload interval in seconds (`LODESTAR_RELOAD_SECS`).
    pub reload_secs: u64,
}

/// The model of [`Config`].
pub struct ConfigModel {
    pub bind_addr: Seq<char>,
    pub dns_addr: Seq<char>,
    pub zone_name: Seq<char>,
    pub primary_ns: Seq<char>,
    pub hostmaster: Seq<char>,
    pub seed_ip: Seq<char>,
    pub reload_secs: u64,
}

impl View for Config {
    type V = ConfigModel;

    open spec fn view(&self) -> ConfigModel {
        ConfigModel {
            bind_addr: self.bind_addr@,
            dns_addr: self.dns_addr@,
            zone_name: self.zone_name@,
            primary_ns: self.primary_ns@,
            hostmaster: self.hostmaster@,
            seed_ip: self.seed_ip@,
            reload_secs: self.reload_secs,
        }
    }
}

// ---------------------------------------------------------------------------
// Names
// ---------------------------------------------------------------------------

/// The canonical form of a DNS name: without surrounding white space and trailing dots, and in
/// lower case.
pub open spec fn canonical(name: Seq<char>) -> Seq<char> {
    text::lowered(text::trimmed_end_of(text::trimmed(name), '.'))
}

/// Lowercases a DNS name and strips any trailing dot, so comparisons are canonical.
pub fn normalize_name(name: &str) -> (r: String)
    ensures
        r@ == canonical(name@),
{
    text::to_ascii_lowercase(&text::trim_end_matches(&text::trim(name), '.'))
}

/// Whether `name` is the name `zone` or lies below it.
pub open spec fn is_within(name: Seq<char>, zone: Seq<char>) -> bool {
    name == zone || (seq!['.'] + zone).is_suffix_of(name)
}

/// Whether `name` is the name `zone` or lies below it.
pub fn within(name: &str, zone: &str) -> (r: bool)
    ensures
        r == is_within(name@, zone@),
{
    proof {
        reveal_strlit(".");
        assert("."@ == seq!['.']);
    }
    text::same(name, zone) || text::ends_with(name, &text::concat(".", zone))
}

// ---------------------------------------------------------------------------
// Environment
// ---------------------------------------------------------------------------

/// The value of the variable `key`, where it is set.
pub open spec fn env_value(vars: Seq<(String, String)>, key: Seq<char>) -> Option<Seq<char>>
    decreases vars.len(),
{
    if vars.len() == 0 {
        None
    } else if vars[0].0@ == key {
        Some(vars[0].1@)
    } else {
        env_value(vars.drop_first(), key)
    }
}

/// The value of the variable `key`, where it is set and not empty.
pub open spec fn env_nonempty_value(vars: Seq<(String, String)>, key: Seq<char>) -> Option<
    Seq<char>,
> {
    match env_value(vars, key) {
        Some(v) => if v.len() > 0 {
            Some(v)
        } else {
            None
        },
        None => None,
    }
}

/// The value of the variable `key`, or `default` where it is unset or empty.
pub open spec fn env_or(
    vars: Seq<(String, String)>,
    key: Seq<char>,
    default: Seq<char>,
) -> Seq<char> {
    match env_nonempty_value(vars, key) {
        Some(v) => v,
        None => default,
    }
}

/// The canonical form of the name in the variable `key`, or `default` where it is unset or empty.
pub open spec fn env_name_or(
    vars: Seq<(String, String)>,
    key: Seq<char>,
    default: Seq<char>,
) -> Seq<char> {
    match env_nonempty_value(vars, key) {
        Some(v) => canonical(v),
        None => default,
    }
}

/// The interval in the variable `key`, at least one second, or `default` where the variable holds no
/// number.
pub open spec fn env_secs_or(vars: Seq<(String, String)>, key: Seq<char>, default: u64) -> u64 {
    match env_nonempty_value(vars, key) {
        Some(v) => match digits::unsigned(v, u64::MAX as nat) {
            Some(n) => if n < 1 {
                1
            } else {
                n as u64
            },
            None => default,
        },
        None => default,
    }
}

/// The configuration that the variables give.
pub open spec fn configured(vars: Seq<(String, String)>) -> ConfigModel {
    ConfigModel {
        bind_addr: env_or(vars, "BIND_ADDR"@, DEFAULT_BIND_ADDR@),
        dns_addr: env_or(vars, "LODESTAR_DNS_ADDR"@, DEFAULT_DNS_ADDR@),
        zone_name: env_name_or(vars, "LODESTAR_ZONE"@, DEFAULT_ZONE_NAME@),
        primary_ns: env_name_or(vars, "LODESTAR_PRIMARY_NS"@, DEFAULT_PRIMARY_NS@),
        hostmaster: env_name_or(vars, "LODESTAR_HOSTMASTER"@, DEFAULT_HOSTMASTER@),
        seed_ip: env_or(vars, "LODESTAR_SEED_IP"@, DEFAULT_SEED_IP@),
        reload_secs: env_secs_or(vars, "LODESTAR_RELOAD_SECS"@, DEFAULT_RELOAD_SECS),
    }
}

/// Whether a value switches a feature on: `on`, `true`, `1` or `yes`, in any case.
pub open spec fn is_truthy(value: Seq<char>) -> bool {
    let v = text::lowered(text::trimmed(value));
    v == "on"@ || v == "true"@ || v == "1"@ || v == "yes"@
}

/// Reads a variable; the first of `vars` with the key counts.
fn env_var(vars: &[(String, String)], key: &str) -> (r: Option<String>)
    ensures
        match r {
            Some(v) => env_value(vars@, key@) == Some(v@),
            None => env_value(vars@, key@) is None,
        },
{
    let mut i: usize = 0;
    assert(vars@.skip(0) == vars@);
    while i < vars.len()
        invariant
            i <= vars@.len(),
            env_value(vars@, key@) == env_value(vars@.skip(i as int), key@),
        decreases vars@.len() - i,
    {
        assert(vars@.skip(i as int).drop_first() == vars@.skip(i + 1));
        if text::same(&vars[i].0, key) {
            return Some(vars[i].1.clone());
        }
        i += 1;
    }
    None
}

/// Reads a variable, returning `None` when it is unset or empty.
pub fn env_nonempty(vars: &[(String, String)], key: &str) -> (r: Option<String>)
    ensures
        match r {
            Some(v) => env_nonempty_value(vars@, key@) == Some(v@),
            None => env_nonempty_value(vars@, key@) is None,
        },
{
    match env_var(vars, key) {
        Some(v) => {
            if v.as_str().is_empty() {
                None
            } else {
                Some(v)
            }
        },
        None => None,
    }
}

/// Interprets a variable as a switch; unset is off.
pub fn env_truthy(vars: &[(String, String)], key: &str) -> (r: bool)
    ensures
        r == match env_value(vars@, key@) {
            Some(v) => is_truthy(v),
            None => false,
        },
{
    match env_var(vars, key) {
        Some(v) => {
            let t = text::to_ascii_lowercase(&text::trim(&v));
            text::same(&t, "on") || text::same(&t, "true") || text::same(&t, "1") || text::same(
                &t,
                "yes",
            )
        },
        None => false,
    }
}

impl Config {
    /// Default configuration (in-memory friendly, no database).
    pub fn dev() -> (r: Self)
        ensures
            r.bind_addr@ == DEFAULT_BIND_ADDR@,
            r.dns_addr@ == DEFAULT_DNS_ADDR@,
            r.zone_name@ == DEFAULT_ZONE_NAME@,
            r.primary_ns@ == DEFAULT_PRIMARY_NS@,
            r.hostmaster@ == DEFAULT_HOSTMASTER@,
            r.seed_ip@ == DEFAULT_SEED_IP@,
            r.reload_secs == DEFAULT_RELOAD_SECS,
    {
        Config {
            bind_addr: DEFAULT_BIND_ADDR.to_string(),
            dns_addr: DEFAULT_DNS_ADDR.to_string(),
            zone_name: DEFAULT_ZONE_NAME.to_string(),
            primary_ns: DEFAULT_PRIMARY_NS.to_string(),
            hostmaster: DEFAULT_HOSTMASTER.to_string(),
            seed_ip: DEFAULT_SEED_IP.to_string(),
            reload_secs: DEFAULT_RELOAD_SECS,
        }
    }

    /// The default configuration overridden by the environment variables `vars`.
    pub fn from_env(vars: &[(String, String)]) -> (r: Self)
        ensures
            r.bind_addr@ == env_or(vars@, "BIND_ADDR"@, DEFAULT_BIND_ADDR@),
            r.dns_addr@ == env_or(vars@, "LODESTAR_DNS_ADDR"@, DEFAULT_DNS_ADDR@),
            r.zone_name@ == env_name_or(vars@, "LODESTAR_ZONE"@, DEFAULT_ZONE_NAME@),
            r.primary_ns@ == env_name_or(vars@, "LODESTAR_PRIMARY_NS"@, DEFAULT_PRIMARY_NS@),
            r.hostmaster@ == env_name_or(vars@, "LODESTAR_HOSTMASTER"@, DEFAULT_HOSTMASTER@),
            r.seed_ip@ == env_or(vars@, "LODESTAR_SEED_IP"@, DEFAULT_SEED_IP@),
            r.reload_secs == env_secs_or(vars@, "LODESTAR_RELOAD_SECS"@, DEFAULT_RELOAD_SECS),
            r@ == configured(vars@),
    {
        let mut config = Config::dev();
        if let Some(v) = env_nonempty(vars, "BIND_ADDR") {
            config.bind_addr = v;
        }
        if let Some(v) = env_nonempty(vars, "LODESTAR_DNS_ADDR") {
            config.dns_addr = v;
        }
        if let Some(v) = env_nonempty(vars, "LODESTAR_ZONE") {
            config.zone_name = normalize_name(&v);
        }
        if let Some(v) = env_nonempty(vars, "LODESTAR_PRIMARY_NS") {
            config.primary_ns = normalize_name(&v);
        }
        if let Some(v) = env_nonempty(vars, "LODESTAR_HOSTMASTER") {
            config.hostmaster = normalize_name(&v);
        }
        if let Some(v) = env_nonempty(vars, "LODESTAR_SEED_IP") {
            config.seed_ip = v;
        }
        if let Some(v) = env_nonempty(vars, "LODESTAR_RELOAD_SECS") {
            if let Some(n) = digits::parse_unsigned(&v, u64::MAX) {
                config.reload_secs = if n < 1 {
                    1
                } else {
                    n
                };
            }
        }
        config
    }
}

impl Default for Config {
    fn default() -> (r: Self)
        ensures
            r.bind_addr@ == DEFAULT_BIND_ADDR@,
            r.dns_addr@ == DEFAULT_DNS_ADDR@,
            r.zone_name@ == DEFAULT_ZONE_NAME@,
            r.primary_ns@ == DEFAULT_PRIMARY_NS@,
            r.hostmaster@ == DEFAULT_HOSTMASTER@,
            r.seed_ip@ == DEFAULT_SEED_IP@,
            r.reload_secs == DEFAULT_RELOAD_SECS,
    {
        Config::dev()
    }
}

/// Which store the server runs on.
#[derive(Debug)]
pub enum StoreChoice {
    /// The in-memory store.
    Memory,
    /// The PostgreSQL store at this database URL.
    Postgres(String),
}

/// The store that the variables choose.
pub open spec fn chosen_store(vars: Seq<(String, String)>) -> Result<Option<Seq<char>>, Seq<char>> {
    let kind = env_or(vars, "LODESTAR_STORE"@, "memory"@);
    if kind == "postgres"@ {
        match env_nonempty_value(vars, "LODESTAR_DATABASE_URL"@) {
            Some(url) => Ok(Some(url)),
            None => match env_nonempty_value(vars, "DATABASE_URL"@) {
                Some(url) => Ok(Some(url)),
                None => Err("LODESTAR_STORE=postgres requires LODESTAR_DATABASE_URL"@),
            },
        }
    } else if kind == "memory"@ {
        Ok(None)
    } else {
        Err("unknown LODESTAR_STORE="@ + kind + " (use memory|postgres)"@)
    }
}

/// Selects the store by `LODESTAR_STORE`: `memory` (the default), or `postgres`, which needs a
/// database URL.
pub fn choose_store(vars: &[(String, String)]) -> (r: Result<StoreChoice, String>)
    ensures
        match r {
            Ok(StoreChoice::Memory) => chosen_store(vars@) == Ok::<Option<Seq<char>>, Seq<char>>(
                None,
            ),
            Ok(StoreChoice::Postgres(url)) => chosen_store(vars@) == Ok::<
                Option<Seq<char>>,
                Seq<char>,
            >(Some(url@)),
            Err(e) => chosen_store(vars@) == Err::<Option<Seq<char>>, Seq<char>>(e@),
        },
{
    let kind = match env_nonempty(vars, "LODESTAR_STORE") {
        Some(v) => v,
        None => "memory".to_string(),
    };
    if text::same(&kind, "postgres") {
        match env_nonempty(vars, "LODESTAR_DATABASE_URL") {
            Some(url) => Ok(StoreChoice::Postgres(url)),
            None => match env_nonempty(vars, "DATABASE_URL") {
                Some(url) => Ok(StoreChoice::Postgres(url)),
                None => Err("LODESTAR_STORE=postgres requires LODESTAR_DATABASE_URL".to_string()),
            },
        }
    } else if text::same(&kind, "memory") {
        Ok(StoreChoice::Memory)
    } else {
        let mut e = "unknown LODESTAR_STORE=".to_string();
        e.push_str(&kind);
        e.push_str(" (use memory|postgres)");
        Err(e)
    }
}

/// How edits are mirrored to the audit service.
#[derive(Debug)]
pub struct AuditSettings {
    /// Whether edits are mirrored at all (`AUDIT_ENABLED`).
    pub enabled: bool,
    /// Base URL of the audit service (`WATCHTOWER_URL`).
    pub url: String,
    /// Bearer token for the audit service (`AUDIT_INGEST_TOKEN`).
    pub token: Option<String>,
}

/// The audit settings that the environment variables `vars` give; mirroring is off by default.
pub fn audit_settings(vars: &[(String, String)]) -> (r: AuditSettings)
    ensures
        r.enabled == match env_value(vars@, "AUDIT_ENABLED"@) {
            Some(v) => is_truthy(v),
            None => false,
        },
        r.url@ == env_or(vars@, "WATCHTOWER_URL"@, DEFAULT_WATCHTOWER_URL@),
        match r.token {
            Some(token) => env_nonempty_value(vars@, "AUDIT_INGEST_TOKEN"@) == Some(token@),
            None => env_nonempty_value(vars@, "AUDIT_INGEST_TOKEN"@) is None,
        },
{
    let url = match env_nonempty(vars, "WATCHTOWER_URL") {
        Some(v) => v,
        None => DEFAULT_WATCHTOWER_URL.to_string(),
    };
    AuditSettings {
        enabled: env_truthy(vars, "AUDIT_ENABLED"),
        url,
        token: env_nonempty(vars, "AUDIT_INGEST_TOKEN"),
    }
}

} // verus!
