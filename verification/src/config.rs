//! Server configuration and its defaults. Socket addresses and paths are
//! kept as text; the program that loads the file parses them.

use vstd::prelude::*;
use crate::text::copy_str;

verus! {

broadcast use vstd::string::group_string_axioms;

#[derive(Debug, Clone)]
pub struct Config {
    pub server: ServerConfig,
    pub tls: TlsConfig,
    pub storage: StorageConfig,
    pub federation: FederationConfig,
    pub muc: MucConfig,
    pub rate_limit: RateLimitConfig,
}

#[derive(Debug, Clone)]
pub struct ServerConfig {
    pub domain: String,
    pub name: String,
    pub c2s_addr: String,
    pub s2s_addr: String,
    pub max_stanza_size: usize,
    pub max_connections: usize,
    pub idle_timeout_secs: u64,
}

#[derive(Debug, Clone)]
pub struct TlsConfig {
    pub cert_path: Option<String>,
    pub key_path: Option<String>,
    pub generate_self_signed: bool,
    pub self_signed_days: u32,
}

#[derive(Debug, Clone)]
pub struct StorageConfig {
    pub data_dir: String,
    pub users_file: String,
    pub muc_logs_dir: String,
}

#[derive(Debug, Clone)]
pub struct FederationConfig {
    pub enabled: bool,
    pub allowed_servers: Vec<String>,
    pub blacklist: Vec<String>,
    pub dialback_secret: String,
    pub s2s_timeout_secs: u64,
    pub max_federation_stanza_size: usize,
}

#[derive(Debug, Clone)]
pub struct MucConfig {
    pub default_room: String,
    pub max_room_occupants: usize,
    pub persistent_rooms: bool,
}

#[derive(Debug, Clone)]
pub struct RateLimitConfig {
    pub stanzas_per_second: u32,
    pub burst_size: u32,
    pub connections_per_ip: u32,
}

/// The default server settings.
pub open spec fn is_default_server(s: ServerConfig) -> bool {
    &&& s.domain@ == "ossftw.com"@
    &&& s.name@ == "OSS FTW XMPP Server"@
    &&& s.c2s_addr@ == "0.0.0.0:5222"@
    &&& s.s2s_addr@ == "0.0.0.0:5269"@
    &&& s.max_stanza_size == 100_000
    &&& s.max_connections == 10_000
    &&& s.idle_timeout_secs == 300
}

/// The default TLS settings: no files, a self-signed certificate for a year.
pub open spec fn is_default_tls(t: TlsConfig) -> bool {
    &&& t.cert_path is None
    &&& t.key_path is None
    &&& t.generate_self_signed
    &&& t.self_signed_days == 365
}

pub open spec fn is_default_storage(s: StorageConfig) -> bool {
    &&& s.data_dir@ == "/data"@
    &&& s.users_file@ == "/data/users.json"@
    &&& s.muc_logs_dir@ == "/data/muc_logs"@
}

pub open spec fn is_default_federation(f: FederationConfig) -> bool {
    &&& f.enabled
    &&& f.allowed_servers@.len() == 0
    &&& f.blacklist@.len() == 0
    &&& f.dialback_secret@ == "change-me-to-a-random-secret"@
    &&& f.s2s_timeout_secs == 30
    &&& f.max_federation_stanza_size == 500_000
}

pub open spec fn is_default_muc(m: MucConfig) -> bool {
    &&& m.default_room@ == "lobby"@
    &&& m.max_room_occupants == 100
    &&& m.persistent_rooms
}

pub open spec fn is_default_rate_limit(r: RateLimitConfig) -> bool {
    &&& r.stanzas_per_second == 50
    &&& r.burst_size == 100
    &&& r.connections_per_ip == 20
}

impl Default for Config {
    fn default() -> (r: Self)
        ensures
            is_default_server(r.server),
            is_default_tls(r.tls),
            is_default_storage(r.storage),
            is_default_federation(r.federation),
            is_default_muc(r.muc),
            is_default_rate_limit(r.rate_limit),
    {
        Config {
            server: ServerConfig {
                domain: copy_str("ossftw.com"),
                name: copy_str("OSS FTW XMPP Server"),
                c2s_addr: copy_str("0.0.0.0:5222"),
                s2s_addr: copy_str("0.0.0.0:5269"),
                max_stanza_size: 100_000,
                max_connections: 10_000,
                idle_timeout_secs: 300,
            },
            tls: TlsConfig {
                cert_path: None,
                key_path: None,
                generate_self_signed: true,
                self_signed_days: 365,
            },
            storage: StorageConfig {
                data_dir: copy_str("/data"),
                users_file: copy_str("/data/users.json"),
                muc_logs_dir: copy_str("/data/muc_logs"),
            },
            federation: FederationConfig {
                enabled: true,
                allowed_servers: Vec::new(),
                blacklist: Vec::new(),
                dialback_secret: copy_str("change-me-to-a-random-secret"),
                s2s_timeout_secs: 30,
                max_federation_stanza_size: 500_000,
            },
            muc: MucConfig { default_room: copy_str("lobby"), max_room_occupants: 100, persistent_rooms: true },
            rate_limit: RateLimitConfig { stanzas_per_second: 50, burst_size: 100, connections_per_ip: 20 },
        }
    }
}

/// How the server sets up TLS.
#[derive(Debug)]
pub enum TlsPlan {
    /// Load the certificate chain and the key from these files.
    LoadFiles { cert_path: String, key_path: String },
    /// Generate a self-signed certificate for the domain.
    SelfSigned { domain: String },
    /// Run without TLS.
    Plain,
}

/// Chooses how to set up TLS: from the configured files when both are
/// given and exist, else a self-signed certificate when the configuration
/// asks for one, else none. `cert_exists` and `key_exists` say whether the
/// configured files are there.
pub fn tls_plan(config: &Config, cert_exists: bool, key_exists: bool) -> (p: TlsPlan)
    ensures
        match (config.tls.cert_path, config.tls.key_path) {
            (Some(c), Some(k)) if cert_exists && key_exists => p matches TlsPlan::LoadFiles { cert_path, key_path }
                && cert_path@ == c@ && key_path@ == k@,
            _ => if config.tls.generate_self_signed {
                p matches TlsPlan::SelfSigned { domain } && domain@ == config.server.domain@
            } else {
                p is Plain
            },
        },
{
    match (&config.tls.cert_path, &config.tls.key_path) {
        (Some(c), Some(k)) => {
            if cert_exists && key_exists {
                return TlsPlan::LoadFiles { cert_path: copy_str(c.as_str()), key_path: copy_str(k.as_str()) };
            }
        },
        _ => {},
    }
    if config.tls.generate_self_signed {
        TlsPlan::SelfSigned { domain: copy_str(config.server.domain.as_str()) }
    } else {
        TlsPlan::Plain
    }
}

} // verus!
