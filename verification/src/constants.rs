//! The protocol constants the remote service expects: version strings,
//! shared secrets kept only for wire compatibility, the built-in mirror
//! bases, and the discovery URLs.
use vstd::prelude::*;

verus! {

/// The protocol version string sent in the `tokenparam` header.
pub fn header_ver() -> (r: &'static str)
    ensures
        r@ == "1.7.5"@,
{
    "1.7.5"
}

/// The client version string sent in the `version` header.
pub fn app_version() -> (r: &'static str)
    ensures
        r@ == "2.0.6"@,
{
    "2.0.6"
}

/// The shared secret keying the general API envelope.
pub fn app_data_secret() -> (r: &'static str)
    ensures
        r@ == "185Hcomic3PAPP7R"@,
{
    "185Hcomic3PAPP7R"
}

/// The shared secret behind the per-request token.
pub fn app_token_secret() -> (r: &'static str)
    ensures
        r@ == "18comicAPP"@,
{
    "18comicAPP"
}

/// The narrower-scope token secret for the page-rendering endpoint.
pub fn app_token_secret_2() -> (r: &'static str)
    ensures
        r@ == "18comicAPPContent"@,
{
    "18comicAPPContent"
}

/// The secret keying the mirror-discovery payload.
pub fn domain_server_secret() -> (r: &'static str)
    ensures
        r@ == "diosfjckwpqpdfjkvnqQjsik"@,
{
    "diosfjckwpqpdfjkvnqQjsik"
}

/// The hard-coded fallback base used when nothing else seeds the pool.
pub fn default_api_base() -> (r: &'static str)
    ensures
        r@ == "https://www.cdnhth.club"@,
{
    "https://www.cdnhth.club"
}

/// The built-in default base list.
pub fn default_api_base_list() -> (r: Vec<String>)
    ensures
        r@.len() == 1,
        r@[0]@ == "www.cdngwc.cc"@,
{
    let mut out: Vec<String> = Vec::new();
    let b = "www.cdngwc.cc";
    out.push(b.to_owned());
    out
}

/// The default web base for the form endpoints.
pub fn web_base_default() -> (r: &'static str)
    ensures
        r@ == "https://18-comicblade.art"@,
{
    "https://18-comicblade.art"
}

/// The well-known discovery URLs, tried in order.
pub fn domain_server_urls() -> (r: Vec<String>)
    ensures
        r@.len() == 2,
        r@[0]@ == "https://rup4a04-c01.tos-ap-southeast-1.bytepluses.com/newsvr-2025.txt"@,
        r@[1]@ == "https://rup4a04-c02.tos-cn-hongkong.bytepluses.com/newsvr-2025.txt"@,
{
    let mut out: Vec<String> = Vec::new();
    let a = "https://rup4a04-c01.tos-ap-southeast-1.bytepluses.com/newsvr-2025.txt";
    out.push(a.to_owned());
    let b = "https://rup4a04-c02.tos-cn-hongkong.bytepluses.com/newsvr-2025.txt";
    out.push(b.to_owned());
    out
}

/// The desktop browser identity sent with API requests.
pub fn user_agent_desktop() -> (r: &'static str)
    ensures
        r@
            == "Mozilla/5.0 (Windows NT 10.0; Win64; x64) AppleWebKit/537.36 (KHTML, like Gecko) Chrome/114.0.0.0 Safari/537.36 Edg/114.0.1823.43"@,
{
    "Mozilla/5.0 (Windows NT 10.0; Win64; x64) AppleWebKit/537.36 (KHTML, like Gecko) Chrome/114.0.0.0 Safari/537.36 Edg/114.0.1823.43"
}

/// The mobile browser identity the page-rendering endpoint expects.
pub fn user_agent_mobile() -> (r: &'static str)
    ensures
        r@
            == "Mozilla/5.0 (Linux; Android 7.1.2; DT1901A Build/N2G47O; wv) AppleWebKit/537.36 (KHTML, like Gecko) Version/4.0 Chrome/86.0.4240.198 Mobile Safari/537.36"@,
{
    "Mozilla/5.0 (Linux; Android 7.1.2; DT1901A Build/N2G47O; wv) AppleWebKit/537.36 (KHTML, like Gecko) Version/4.0 Chrome/86.0.4240.198 Mobile Safari/537.36"
}

} // verus!
