//! HTTP client configuration: defaults, the proxy priority chain, the
//! `--spall-header` flag format and the client-certificate pairing rule.

use vstd::prelude::*;
use crate::text;

verus! {

/// The version string carried in the default `User-Agent`.
pub const VERSION: &'static str = "0.1.0";

/// Configuration for building the HTTP client.
pub struct HttpConfig {
    /// Request timeout, in seconds.
    pub timeout_secs: u64,
    pub retry: u8,
    pub follow_redirects: bool,
    pub max_redirects: usize,
    pub insecure: bool,
    pub ca_cert: Option<String>,
    pub client_cert: Option<String>,
    pub client_key: Option<String>,
    pub proxy: Option<String>,
    pub no_proxy: bool,
    pub base_url_override: Option<String>,
    pub default_headers: Vec<(String, String)>,
    pub user_agent: String,
    pub auth_header: Option<String>,
    pub custom_headers: Vec<(String, String)>,
}

/// The default `User-Agent`: `spall/<version>`.
pub open spec fn default_user_agent() -> Seq<char> {
    "spall/"@ + VERSION@
}

impl Default for HttpConfig {
    fn default() -> (r: Self)
        ensures
            r.timeout_secs == 30,
            r.retry == 1,
            !r.follow_redirects,
            r.max_redirects == 10,
            !r.insecure,
            r.ca_cert is None,
            r.client_cert is None,
            r.client_key is None,
            r.proxy is None,
            !r.no_proxy,
            r.base_url_override is None,
            r.default_headers@.len() == 0,
            r.user_agent@ == default_user_agent(),
            r.auth_header is None,
            r.custom_headers@.len() == 0,
    {
        HttpConfig {
            timeout_secs: 30,
            retry: 1,
            follow_redirects: false,
            max_redirects: 10,
            insecure: false,
            ca_cert: None,
            client_cert: None,
            client_key: None,
            proxy: None,
            no_proxy: false,
            base_url_override: None,
            default_headers: Vec::new(),
            user_agent: String::from_str("spall/").concat(VERSION),
            auth_header: None,
            custom_headers: Vec::new(),
        }
    }
}

/// The first of the values that is set and not empty.
pub open spec fn first_nonempty(vals: Seq<Option<Seq<char>>>) -> Option<Seq<char>>
    decreases vals.len(),
{
    if vals.len() == 0 {
        None
    } else {
        match vals[0] {
            Some(v) if v.len() > 0 => Some(v),
            _ => first_nonempty(vals.drop_first()),
        }
    }
}

/// The view of an optional string.
pub open spec fn opt_view(o: Option<String>) -> Option<Seq<char>> {
    match o {
        Some(s) => Some(s@),
        None => None,
    }
}

/// The proxy named by the environment: `HTTPS_PROXY`, else `HTTP_PROXY`,
/// else `ALL_PROXY`, skipping variables that are unset or empty. The caller
/// reads the three variables.
pub fn resolve_env_proxy(
    https_proxy: Option<String>,
    http_proxy: Option<String>,
    all_proxy: Option<String>,
) -> (r: Option<String>)
    ensures
        opt_view(r) == first_nonempty(seq![opt_view(https_proxy), opt_view(http_proxy), opt_view(all_proxy)]),
{
    let ghost vals = seq![opt_view(https_proxy), opt_view(http_proxy), opt_view(all_proxy)];
    proof {
        reveal_with_fuel(first_nonempty, 4);
        assert(vals.drop_first() =~= seq![opt_view(http_proxy), opt_view(all_proxy)]);
        assert(vals.drop_first().drop_first() =~= seq![opt_view(all_proxy)]);
        assert(vals.drop_first().drop_first().drop_first() =~= Seq::<Option<Seq<char>>>::empty());
    }
    match https_proxy {
        Some(p) if !p.as_str().is_empty() => {
            proof {
                assert(p@.len() > 0);
            }
            return Some(p);
        }
        _ => {}
    }
    match http_proxy {
        Some(p) if !p.as_str().is_empty() => {
            proof {
                assert(p@.len() > 0);
            }
            return Some(p);
        }
        _ => {}
    }
    match all_proxy {
        Some(p) if !p.as_str().is_empty() => {
            proof {
                assert(p@.len() > 0);
            }
            return Some(p);
        }
        _ => {}
    }
    None
}

/// The effective proxy: none when `--spall-no-proxy` is given, else the
/// first of `--spall-proxy`, the API's configured proxy, the environment's
/// proxy and the global default proxy.
pub open spec fn proxy_choice(
    no_proxy: bool,
    cli: Option<Seq<char>>,
    entry: Option<Seq<char>>,
    env: Option<Seq<char>>,
    global: Option<Seq<char>>,
) -> Option<Seq<char>> {
    if no_proxy {
        None
    } else if cli is Some {
        cli
    } else if entry is Some {
        entry
    } else if env is Some {
        env
    } else {
        global
    }
}

/// Resolve the effective proxy URL following the priority chain.
pub fn resolve_proxy(
    no_proxy: bool,
    cli_proxy: Option<String>,
    entry_proxy: Option<String>,
    env_proxy: Option<String>,
    global_proxy: Option<String>,
) -> (r: Option<String>)
    ensures
        opt_view(r) == proxy_choice(no_proxy, opt_view(cli_proxy), opt_view(entry_proxy),
            opt_view(env_proxy), opt_view(global_proxy)),
{
    if no_proxy {
        return None;
    }
    if cli_proxy.is_some() {
        return cli_proxy;
    }
    if entry_proxy.is_some() {
        return entry_proxy;
    }
    if env_proxy.is_some() {
        return env_proxy;
    }
    global_proxy
}

/// The `(name, value)` a `--spall-header "Name: value"` flag adds: split at
/// the first `:` and trimmed; no header when there is no `:`.
pub open spec fn header_flag(h: Seq<char>) -> Option<(Seq<char>, Seq<char>)> {
    match text::index_of(h, ':') {
        Some(k) => Some((text::trim(h.subrange(0, k)), text::trim(h.subrange(k + 1, h.len() as int)))),
        None => None,
    }
}

/// Parse a `--spall-header "Name: value"` flag.
pub fn parse_header_flag(h: &str) -> (r: Option<(String, String)>)
    ensures
        match (r, header_flag(h@)) {
            (Some(p), Some(q)) => p.0@ == q.0 && p.1@ == q.1,
            (None, None) => true,
            _ => false,
        },
{
    let v = text::chars_of(h);
    let mut i: usize = 0;
    while i < v.len()
        invariant
            i <= v.len(),
            v@ == h@,
            forall|j: int| 0 <= j < i ==> v@[j] != ':',
        decreases v.len() - i,
    {
        if v[i] == ':' {
            proof {
                text::lemma_index_of_at(v@, ':', i as int);
            }
            let (a, b) = text::trim_bounds(&v, 0, i, None);
            let (c, d) = text::trim_bounds(&v, i + 1, v.len(), None);
            let name = text::string_of(&text::v_range(&v, a, b));
            let value = text::string_of(&text::v_range(&v, c, d));
            return Some((name, value));
        }
        i = i + 1;
    }
    proof {
        text::lemma_index_of_none(v@, ':');
    }
    None
}

/// The client-identity rule: a certificate and a key are given together or
/// not at all. `Ok(true)` when both are given, `Ok(false)` when neither is.
pub fn check_client_identity(cert: &Option<String>, key: &Option<String>) -> (r: Result<bool, String>)
    ensures
        (cert is Some && key is Some) ==> r == Ok::<bool, String>(true),
        (cert is None && key is None) ==> r == Ok::<bool, String>(false),
        (cert is Some && key is None) ==> (r matches Err(m) && m@ == "--spall-cert requires --spall-key"@),
        (cert is None && key is Some) ==> (r matches Err(m) && m@ == "--spall-key requires --spall-cert"@),
{
    match (cert, key) {
        (None, None) => Ok(false),
        (Some(_), None) => Err(String::from_str("--spall-cert requires --spall-key")),
        (None, Some(_)) => Err(String::from_str("--spall-key requires --spall-cert")),
        (Some(_), Some(_)) => Ok(true),
    }
}

/// Retry configuration.
pub struct RetryConfig {
    pub max_retries: u8,
    pub base_delay_ms: u64,
}

impl Default for RetryConfig {
    fn default() -> (r: Self)
        ensures
            r.max_retries == 1,
            r.base_delay_ms == 500,
    {
        RetryConfig { max_retries: 1, base_delay_ms: 500 }
    }
}


/// A value given on either side of the operation on the command line: the
/// one after it wins, else the one before it.
pub fn merged_one<T>(after: Option<T>, before: Option<T>) -> (r: Option<T>)
    ensures
        r == (match after {
            Some(a) => Some(a),
            None => before,
        }),
{
    match after {
        Some(a) => Some(a),
        None => before,
    }
}

/// The values of a repeatable flag given on either side of the operation:
/// those after it when there are any, else those before it (the two are
/// not combined).
pub fn merged_many(after: Option<Vec<String>>, before: Option<Vec<String>>) -> (r: Vec<String>)
    ensures
        r@ == (match after {
            Some(a) => a@,
            None => match before {
                Some(b) => b@,
                None => Seq::<String>::empty(),
            },
        }),
{
    match after {
        Some(a) => a,
        None => match before {
            Some(b) => b,
            None => Vec::new(),
        },
    }
}

/// The client settings a command line gave, read as plain values.
pub struct ClientFlags {
    /// `--spall-timeout`, in seconds.
    pub timeout_secs: Option<u64>,
    /// `--spall-retry`.
    pub retry: Option<u8>,
    /// `--spall-redirect`.
    pub redirect: bool,
    /// `--spall-max-redirects`.
    pub max_redirects: Option<usize>,
    /// `--spall-insecure`.
    pub insecure: bool,
    /// `--spall-ca-cert`.
    pub ca_cert: Option<String>,
    /// `--spall-cert`.
    pub cert: Option<String>,
    /// `--spall-key`.
    pub key: Option<String>,
    /// `--spall-no-proxy`.
    pub no_proxy: bool,
    /// `--spall-proxy`.
    pub proxy: Option<String>,
    /// `--spall-server`.
    pub server: Option<String>,
    /// `--spall-auth`.
    pub auth: Option<String>,
    /// `--spall-header` values.
    pub headers: Vec<String>,
}

/// The `(name, value)` pairs of the `--spall-header` values that hold a `:`,
/// in order.
pub open spec fn header_flag_pairs(flags: Seq<Seq<char>>) -> Seq<(Seq<char>, Seq<char>)>
    decreases flags.len(),
{
    if flags.len() == 0 {
        seq![]
    } else {
        let rest = header_flag_pairs(flags.drop_last());
        match header_flag(flags.last()) {
            Some(p) => rest.push(p),
            None => rest,
        }
    }
}

/// The client configuration for a command line: each setting given
/// replaces the default; the switches are on exactly when given; every
/// `--spall-header` value with a `:` becomes a custom header.
pub fn config_from_flags(f: ClientFlags) -> (c: HttpConfig)
    ensures
        c.timeout_secs == (match f.timeout_secs { Some(t) => t, None => 30u64 }),
        c.retry == (match f.retry { Some(r) => r, None => 1u8 }),
        c.follow_redirects == f.redirect,
        c.max_redirects == (match f.max_redirects { Some(m) => m, None => 10usize }),
        c.insecure == f.insecure,
        c.ca_cert == f.ca_cert,
        c.client_cert == f.cert,
        c.client_key == f.key,
        c.no_proxy == f.no_proxy,
        c.proxy == f.proxy,
        c.base_url_override == f.server,
        c.auth_header == f.auth,
        c.default_headers@.len() == 0,
        c.user_agent@ == default_user_agent(),
        crate::order::pair_views(c.custom_headers@) == header_flag_pairs(text::views(f.headers@)),
{
    let mut c = HttpConfig::default();
    if let Some(t) = f.timeout_secs {
        c.timeout_secs = t;
    }
    if let Some(r) = f.retry {
        c.retry = r;
    }
    c.follow_redirects = f.redirect;
    if let Some(m) = f.max_redirects {
        c.max_redirects = m;
    }
    c.insecure = f.insecure;
    c.ca_cert = f.ca_cert;
    c.client_cert = f.cert;
    c.client_key = f.key;
    c.no_proxy = f.no_proxy;
    c.proxy = f.proxy;
    c.base_url_override = f.server;
    c.auth_header = f.auth;
    let headers = f.headers;
    let mut pairs: Vec<(String, String)> = Vec::new();
    let mut i: usize = 0;
    proof {
        assert(crate::order::pair_views(pairs@) =~= header_flag_pairs(text::views(headers@.subrange(0, 0))));
    }
    while i < headers.len()
        invariant
            i <= headers.len(),
            crate::order::pair_views(pairs@) == header_flag_pairs(text::views(headers@.subrange(0, i as int))),
        decreases headers.len() - i,
    {
        proof {
            let t = text::views(headers@.subrange(0, i + 1));
            assert(t.drop_last() =~= text::views(headers@.subrange(0, i as int)));
            assert(t.last() == headers@[i as int]@);
        }
        let ghost before = pairs@;
        if let Some(p) = parse_header_flag(headers[i].as_str()) {
            pairs.push(p);
            proof {
                assert(crate::order::pair_views(pairs@) =~= crate::order::pair_views(before).push((pairs@.last().0@, pairs@.last().1@)));
            }
        }
        i = i + 1;
    }
    proof {
        assert(headers@.subrange(0, headers@.len() as int) =~= headers@);
    }
    c.custom_headers = pairs;
    c
}

} // verus!
