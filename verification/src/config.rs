//! The configuration the collaborators hand the core: an optional SOCKS
//! proxy, an explicit base list, and the session cookies captured at
//! login. Persistence lives outside; the core only reads these values
//! and says where its documents are filed.
use vstd::prelude::*;

verus! {

/// The client configuration, as the core sees it.
pub struct AppConfig {
    /// A SOCKS proxy URL applied to all outbound traffic, if set.
    pub socks_proxy: Option<String>,
    /// Explicitly configured mirror bases.
    pub api_base_list: Vec<String>,
    /// Session cookies captured at login, in insertion order.
    pub session_cookies: Vec<(String, String)>,
}

impl AppConfig {
    /// A configuration with nothing set.
    pub fn new() -> (r: AppConfig)
        ensures
            r.socks_proxy is None,
            r.api_base_list@.len() == 0,
            r.session_cookies@.len() == 0,
    {
        AppConfig { socks_proxy: None, api_base_list: Vec::new(), session_cookies: Vec::new() }
    }
}

/// The proxy in force, a copy of the configured value.
pub fn current_socks_proxy(cfg: &AppConfig) -> (r: Option<String>)
    ensures
        r is Some <==> cfg.socks_proxy is Some,
        r is Some ==> r->Some_0@ == cfg.socks_proxy->Some_0@,
{
    match &cfg.socks_proxy {
        Some(p) => Some(p.clone()),
        None => None,
    }
}

/// Where the configuration document lives under the data directory.
pub fn config_path(data_dir: &str) -> (r: String)
    ensures
        r@ == data_dir@.add("/config.json"@),
{
    let mut out = data_dir.to_owned();
    out.append("/config.json");
    out
}

/// Where the discovered-mirror-list document lives under the data
/// directory.
pub fn api_domain_cache_path(data_dir: &str) -> (r: String)
    ensures
        r@ == data_dir@.add("/api-domain-list.json"@),
{
    let mut out = data_dir.to_owned();
    out.append("/api-domain-list.json");
    out
}

} // verus!
