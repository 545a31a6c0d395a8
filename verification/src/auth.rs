//! Credentials: which auth material a request carries, and the OAuth2
//! authorization-code flow with PKCE.
//!
//! Secrets are held as plain strings here; the program wraps them in its
//! secret type at the edge.

use vstd::prelude::*;
use crate::error::SpallCliError;
use crate::text;

verus! {

/// The kind of credential an API is configured for.
#[derive(PartialEq, Eq, Structural, Clone, Copy, Debug)]
pub enum AuthKind {
    Bearer,
    ApiKey,
    Basic,
    OAuth2,
}

/// Where an API key travels.
pub enum ApiKeyLocation {
    Header { name: String },
    Query { name: String },
}

/// Resolved credential material.
pub enum ResolvedAuth {
    Bearer(String),
    ApiKey { key: String, location: ApiKeyLocation },
    Basic { username: String, password: String },
    OAuth2(String),
}

/// Resolved credential material as plain values.
pub enum AuthV {
    Bearer(Seq<char>),
    ApiKeyHeader { name: Seq<char>, key: Seq<char> },
    ApiKeyQuery { name: Seq<char>, key: Seq<char> },
    Basic { username: Seq<char>, password: Seq<char> },
    OAuth2(Seq<char>),
}

impl View for ResolvedAuth {
    type V = AuthV;

    open spec fn view(&self) -> AuthV {
        match self {
            ResolvedAuth::Bearer(t) => AuthV::Bearer(t@),
            ResolvedAuth::ApiKey { key, location } => match location {
                ApiKeyLocation::Header { name } => AuthV::ApiKeyHeader { name: name@, key: key@ },
                ApiKeyLocation::Query { name } => AuthV::ApiKeyQuery { name: name@, key: key@ },
            },
            ResolvedAuth::Basic { username, password } => AuthV::Basic {
                username: username@,
                password: password@,
            },
            ResolvedAuth::OAuth2(t) => AuthV::OAuth2(t@),
        }
    }
}

/// The `auth` table of an API's configuration.
pub struct AuthConfig {
    pub kind: Option<AuthKind>,
    /// An inline token (discouraged).
    pub token: Option<String>,
    /// The environment variable that holds the token.
    pub token_env: Option<String>,
    /// For OAuth2: the identity provider's token endpoint.
    pub token_url: Option<String>,
    pub username: Option<String>,
    /// The environment variable that holds the Basic password.
    pub password_env: Option<String>,
    /// `"query"` or `"header"` (the default) for API keys.
    pub location: Option<String>,
    pub header_name: Option<String>,
    pub query_name: Option<String>,
    /// For OAuth2: the client id.
    pub client_id: Option<String>,
    /// For OAuth2: the authorization endpoint.
    pub auth_url: Option<String>,
    /// For OAuth2: the scopes to request.
    pub scopes: Option<Vec<String>>,
}

/// The view of an optional string.
pub open spec fn opt_view(o: Option<String>) -> Option<Seq<char>> {
    match o {
        Some(s) => Some(s@),
        None => None,
    }
}

/// The number of `c` in `s`.
pub open spec fn count_char(s: Seq<char>, c: char) -> nat
    decreases s.len(),
{
    if s.len() == 0 {
        0
    } else {
        count_char(s.drop_last(), c) + if s.last() == c { 1nat } else { 0nat }
    }
}

/// A bare credential is `user:pass` only when it is unambiguous: exactly one
/// colon, no whitespace, both halves non-empty, and not a `scheme://` URL.
pub open spec fn bare_is_basic(raw: Seq<char>) -> bool {
    &&& count_char(raw, ':') == 1
    &&& forall|i: int| 0 <= i < raw.len() ==> !text::is_ws(#[trigger] raw[i])
    &&& text::split_once(raw, ':') matches Some((u, p)) && u.len() > 0 && p.len() > 0
        && !text::starts_with(p, "//"@)
}

/// What a `--spall-auth` value means.
///
/// `Bearer <t>` is a bearer token. `Basic <t>` is `user:pass`, either
/// base64-encoded (`decoded`, the text that `t` decodes to, when it is valid
/// base64 of UTF-8) or literal; a `Basic` value that is neither is read as a
/// bare value. A bare value is Basic when `bare_is_basic`, else Bearer.
pub open spec fn cli_auth_of(raw: Seq<char>, decoded: Option<Seq<char>>) -> AuthV {
    if text::starts_with(raw, "Bearer "@) {
        AuthV::Bearer(raw.subrange(7, raw.len() as int))
    } else if text::starts_with(raw, "Basic "@) && basic_pair(raw.subrange(6, raw.len() as int), decoded) is Some {
        let (u, p) = basic_pair(raw.subrange(6, raw.len() as int), decoded).unwrap();
        AuthV::Basic { username: u, password: p }
    } else {
        bare_auth(raw)
    }
}

/// The `user:pass` of a `Basic` value: from its decoded text when that has a
/// colon, else from the literal text.
pub open spec fn basic_pair(token: Seq<char>, decoded: Option<Seq<char>>) -> Option<(Seq<char>, Seq<char>)> {
    match decoded {
        Some(d) if text::split_once(d, ':') is Some => text::split_once(d, ':'),
        _ => text::split_once(token, ':'),
    }
}

/// A bare credential: Basic when unambiguous, else Bearer.
pub open spec fn bare_auth(raw: Seq<char>) -> AuthV {
    if bare_is_basic(raw) {
        let (u, p) = text::split_once(raw, ':').unwrap();
        AuthV::Basic { username: u, password: p }
    } else {
        AuthV::Bearer(raw)
    }
}

/// The text that a base64 (standard alphabet, padded) string decodes to,
/// when it decodes and the bytes are UTF-8.
pub open spec fn base64_text(token: Seq<char>) -> Option<Seq<char>> {
    match base64_std_decoded(token) {
        Some(b) => if vstd::utf8::valid_utf8(b) { Some(vstd::utf8::decode_utf8(b)) } else { None },
        None => None,
    }
}

/// The bytes whose standard padded base64 text is `text`, when there are
/// any (at most one sequence has a given text).
pub open spec fn base64_std_decoded(text: Seq<char>) -> Option<Seq<u8>> {
    if exists|b: Seq<u8>| base64_std_of(b) == text {
        Some(choose|b: Seq<u8>| base64_std_of(b) == text)
    } else {
        None
    }
}

/// `base64::engine::general_purpose::STANDARD.decode`: it accepts exactly
/// the canonical encodings (padding required and canonical, no trailing
/// bits set, nothing outside the alphabet), so it succeeds on the texts
/// that `base64_std_of` gives and returns the bytes encoded; its error is
/// mapped to `None`.
#[verifier::external_body]
fn base64_std_decode(t: &str) -> (r: Option<Vec<u8>>)
    ensures
        match r {
            Some(b) => base64_std_of(b@) == t@,
            None => forall|b: Seq<u8>| base64_std_of(b) != t@,
        },
{
    base64::Engine::decode(&base64::engine::general_purpose::STANDARD, t).ok()
}

/// `String::from_utf8`: the text, when the bytes are valid UTF-8.
#[verifier::external_body]
pub(crate) fn utf8_string(b: Vec<u8>) -> (r: Option<String>)
    ensures
        match r {
            Some(s) => vstd::utf8::valid_utf8(b@) && s@ == vstd::utf8::decode_utf8(b@),
            None => !vstd::utf8::valid_utf8(b@),
        },
{
    String::from_utf8(b).ok()
}

/// The number of `c` in `v`.
fn count_char_exec(v: &Vec<char>, c: char) -> (n: usize)
    ensures
        n == count_char(v@, c),
{
    let mut n: usize = 0;
    let mut i: usize = 0;
    while i < v.len()
        invariant
            i <= v.len(),
            n == count_char(v@.subrange(0, i as int), c),
            n <= i,
        decreases v.len() - i,
    {
        proof {
            assert(v@.subrange(0, i + 1).drop_last() =~= v@.subrange(0, i as int));
        }
        if v[i] == c {
            n = n + 1;
        }
        i = i + 1;
    }
    proof {
        assert(v@.subrange(0, v@.len() as int) =~= v@);
    }
    n
}

/// Whether any character of `v` is whitespace.
fn has_ws(v: &Vec<char>) -> (b: bool)
    ensures
        b == exists|i: int| 0 <= i < v@.len() && text::is_ws(#[trigger] v@[i]),
{
    let mut i: usize = 0;
    while i < v.len()
        invariant
            i <= v.len(),
            forall|j: int| 0 <= j < i ==> !text::is_ws(#[trigger] v@[j]),
        decreases v.len() - i,
    {
        if text::is_ws_exec(v[i]) {
            return true;
        }
        i = i + 1;
    }
    false
}

/// The characters of a string literal.
fn lit(s: &str) -> (v: Vec<char>)
    ensures
        v@ == s@,
{
    text::chars_of(s)
}

/// Whether a bare credential reads as unambiguous `user:pass`.
pub fn is_bare_basic(raw: &str) -> (b: bool)
    ensures
        b == bare_is_basic(raw@),
{
    let v = text::chars_of(raw);
    if count_char_exec(&v, ':') != 1 || has_ws(&v) {
        return false;
    }
    match text::split_once_exec(raw, ':') {
        Some((u, p)) => {
            let pv = text::chars_of(p.as_str());
            let uv = text::chars_of(u.as_str());
            uv.len() > 0 && pv.len() > 0 && !text::starts_with_exec(&pv, &lit("//"))
        },
        None => false,
    }
}

/// A bare credential: Basic when unambiguous, else Bearer.
fn bare(raw: &str) -> (r: ResolvedAuth)
    ensures
        r@ == bare_auth(raw@),
{
    if is_bare_basic(raw) {
        match text::split_once_exec(raw, ':') {
            Some((u, p)) => ResolvedAuth::Basic { username: u, password: p },
            None => ResolvedAuth::Bearer(raw.to_owned()),
        }
    } else {
        ResolvedAuth::Bearer(raw.to_owned())
    }
}

/// The text after `prefix`, when `s` starts with it.
pub fn strip_prefix_exec(s: &str, prefix: &str) -> (r: Option<String>)
    ensures
        match r {
            Some(t) => text::starts_with(s@, prefix@) && t@ == s@.subrange(prefix@.len() as int, s@.len() as int),
            None => !text::starts_with(s@, prefix@),
        },
{
    let v = text::chars_of(s);
    let p = text::chars_of(prefix);
    if text::starts_with_exec(&v, &p) {
        Some(text::string_of_range(&v, p.len(), v.len()))
    } else {
        None
    }
}

/// What a `--spall-auth` value means (see `cli_auth_of`).
pub fn parse_cli_auth(raw: &str) -> (r: ResolvedAuth)
    ensures
        r@ == cli_auth_of(raw@, base64_text(raw@.subrange(6, raw@.len() as int))),
{
    proof {
        reveal_strlit("Bearer ");
        reveal_strlit("Basic ");
    }
    if let Some(token) = strip_prefix_exec(raw, "Bearer ") {
        return ResolvedAuth::Bearer(token);
    }
    if let Some(token) = strip_prefix_exec(raw, "Basic ") {
        let decoded: Option<String> = match base64_std_decode(token.as_str()) {
            Some(b) => {
                proof {
                    let c = choose|c: Seq<u8>| base64_std_of(c) == token@;
                    lemma_base64_std_injective(b@, c);
                    assert(base64_std_decoded(token@) == Some(b@));
                }
                utf8_string(b)
            },
            None => None,
        };
        proof {
            assert(opt_view(decoded) == base64_text(token@));
        }
        if let Some(d) = &decoded {
            if let Some((u, p)) = text::split_once_exec(d.as_str(), ':') {
                return ResolvedAuth::Basic { username: u, password: p };
            }
        }
        if let Some((u, p)) = text::split_once_exec(token.as_str(), ':') {
            return ResolvedAuth::Basic { username: u, password: p };
        }
    }
    bare(raw)
}


/// The name or the default when the name is not configured.
pub open spec fn or_default(o: Option<String>, d: Seq<char>) -> Seq<char> {
    match o {
        Some(s) => s@,
        None => d,
    }
}

/// The credential that a configured token yields for an auth kind.
///
/// API keys go in the query (under `query_name`, default `api_key`) when
/// `location` is `"query"`, else in a header (`header_name`, default
/// `X-Api-Key`). For Basic with a configured username the token is the
/// password, or the part after the first colon of a legacy `user:pass`;
/// without a username the token must be `user:pass`, else it is sent as a
/// bearer token.
pub open spec fn config_auth(cfg: AuthConfig, kind: AuthKind, token: Seq<char>) -> AuthV {
    match kind {
        AuthKind::Bearer => AuthV::Bearer(token),
        AuthKind::ApiKey => if opt_view(cfg.location) == Some("query"@) {
            AuthV::ApiKeyQuery { name: or_default(cfg.query_name, "api_key"@), key: token }
        } else {
            AuthV::ApiKeyHeader { name: or_default(cfg.header_name, "X-Api-Key"@), key: token }
        },
        AuthKind::Basic => match cfg.username {
            Some(u) => AuthV::Basic {
                username: u@,
                password: match text::split_once(token, ':') {
                    Some((_, p)) => p,
                    None => token,
                },
            },
            None => match text::split_once(token, ':') {
                Some((u, p)) => AuthV::Basic { username: u, password: p },
                None => AuthV::Bearer(token),
            },
        },
        AuthKind::OAuth2 => AuthV::OAuth2(token),
    }
}

/// A copy of an optional string, or the default.
fn name_or(o: &Option<String>, d: &str) -> (r: String)
    ensures
        r@ == or_default(*o, d@),
{
    match o {
        Some(s) => s.clone(),
        None => d.to_owned(),
    }
}

/// The credential that a configured token yields (see `config_auth`).
pub fn resolve_from_config_and_token(cfg: &AuthConfig, kind: AuthKind, token: &str) -> (r: Option<ResolvedAuth>)
    ensures
        r matches Some(a) && a@ == config_auth(*cfg, kind, token@),
{
    match kind {
        AuthKind::Bearer => Some(ResolvedAuth::Bearer(token.to_owned())),
        AuthKind::ApiKey => {
            let is_query = match &cfg.location {
                Some(l) => crate::json::str_eq(l.as_str(), "query"),
                None => false,
            };
            let location = if is_query {
                ApiKeyLocation::Query { name: name_or(&cfg.query_name, "api_key") }
            } else {
                ApiKeyLocation::Header { name: name_or(&cfg.header_name, "X-Api-Key") }
            };
            Some(ResolvedAuth::ApiKey { key: token.to_owned(), location })
        },
        AuthKind::Basic => {
            match &cfg.username {
                Some(u) => {
                    let password = match text::split_once_exec(token, ':') {
                        Some((_, p)) => p,
                        None => token.to_owned(),
                    };
                    Some(ResolvedAuth::Basic { username: u.clone(), password })
                },
                None => match text::split_once_exec(token, ':') {
                    Some((u, p)) => Some(ResolvedAuth::Basic { username: u, password: p }),
                    None => Some(ResolvedAuth::Bearer(token.to_owned())),
                },
            }
        },
        AuthKind::OAuth2 => Some(ResolvedAuth::OAuth2(token.to_owned())),
    }
}

/// The environment values that the resolution chain reads: the variables
/// named by `password_env` and `token_env`, and the API's default
/// `SPALL_<API>_TOKEN`. Each is `None` when unset or not configured.
pub struct AuthEnv {
    pub password_env: Option<String>,
    pub token_env: Option<String>,
    pub default_env: Option<String>,
}

/// The next step of credential resolution.
pub enum AuthStep {
    /// Resolution ends with this credential, or with none.
    Done(Option<ResolvedAuth>),
    /// Use the OAuth2 tokens stored by `auth login`, refreshed when expired.
    StoredOAuth2,
    /// Ask the user for the Basic password of this username.
    PromptPassword(String),
}

/// The next step of credential resolution, as plain values.
pub enum AuthStepV {
    Done(Option<AuthV>),
    StoredOAuth2,
    PromptPassword(Seq<char>),
}

impl View for AuthStep {
    type V = AuthStepV;

    open spec fn view(&self) -> AuthStepV {
        match self {
            AuthStep::Done(Some(a)) => AuthStepV::Done(Some(a@)),
            AuthStep::Done(None) => AuthStepV::Done(None),
            AuthStep::StoredOAuth2 => AuthStepV::StoredOAuth2,
            AuthStep::PromptPassword(u) => AuthStepV::PromptPassword(u@),
        }
    }
}

/// A set, non-empty environment value.
pub open spec fn nonempty(o: Option<String>) -> Option<Seq<char>> {
    match o {
        Some(s) => if s@.len() > 0 { Some(s@) } else { None },
        None => None,
    }
}

/// The credential resolution chain, first match wins:
/// the `--spall-auth` value; no config, no credential; the inline token;
/// for Basic, the `password_env` variable with the configured username;
/// the `token_env` variable; the default `SPALL_<API>_TOKEN` variable;
/// for OAuth2, the stored tokens; for Basic with a username, a password
/// prompt; else none. Empty variables count as unset.
pub open spec fn auth_step(cli: Option<Seq<char>>, cfg: Option<AuthConfig>, env: AuthEnv) -> AuthStepV {
    match cli {
        Some(raw) => AuthStepV::Done(Some(cli_auth_of(raw, base64_text(raw.subrange(6, raw.len() as int))))),
        None => match cfg {
            None => AuthStepV::Done(None),
            Some(c) => {
                let kind = match c.kind { Some(k) => k, None => AuthKind::Bearer };
                if c.token is Some {
                    AuthStepV::Done(Some(config_auth(c, kind, c.token.unwrap()@)))
                } else if kind == AuthKind::Basic && c.password_env is Some && nonempty(env.password_env) is Some
                    && c.username is Some {
                    AuthStepV::Done(Some(AuthV::Basic {
                        username: c.username.unwrap()@,
                        password: nonempty(env.password_env).unwrap(),
                    }))
                } else if c.token_env is Some && nonempty(env.token_env) is Some {
                    AuthStepV::Done(Some(config_auth(c, kind, nonempty(env.token_env).unwrap())))
                } else if nonempty(env.default_env) is Some {
                    AuthStepV::Done(Some(config_auth(c, kind, nonempty(env.default_env).unwrap())))
                } else if kind == AuthKind::OAuth2 {
                    AuthStepV::StoredOAuth2
                } else if kind == AuthKind::Basic && c.username is Some {
                    AuthStepV::PromptPassword(c.username.unwrap()@)
                } else {
                    AuthStepV::Done(None)
                }
            },
        },
    }
}

/// A set, non-empty environment value.
fn nonempty_exec(o: &Option<String>) -> (r: Option<&String>)
    ensures
        match r {
            Some(s) => nonempty(*o) == Some(s@),
            None => nonempty(*o) is None,
        },
{
    match o {
        Some(s) => {
            let v = text::chars_of(s.as_str());
            if v.len() > 0 {
                Some(s)
            } else {
                None
            }
        },
        None => None,
    }
}

/// The next step of credential resolution (see `auth_step`).
pub fn resolve_step(cli_auth: Option<&str>, cfg: Option<&AuthConfig>, env: &AuthEnv) -> (r: AuthStep)
    ensures
        r@ == auth_step(
            match cli_auth { Some(s) => Some(s@), None => None },
            match cfg { Some(c) => Some(*c), None => None },
            *env,
        ),
{
    if let Some(raw) = cli_auth {
        return AuthStep::Done(Some(parse_cli_auth(raw)));
    }
    let c = match cfg {
        Some(c) => c,
        None => return AuthStep::Done(None),
    };
    let kind = match c.kind {
        Some(k) => k,
        None => AuthKind::Bearer,
    };
    if let Some(token) = &c.token {
        return AuthStep::Done(resolve_from_config_and_token(c, kind, token.as_str()));
    }
    if kind == AuthKind::Basic && c.password_env.is_some() {
        if let Some(password) = nonempty_exec(&env.password_env) {
            if let Some(username) = &c.username {
                return AuthStep::Done(Some(ResolvedAuth::Basic { username: username.clone(), password: password.clone() }));
            }
        }
    }
    if c.token_env.is_some() {
        if let Some(token) = nonempty_exec(&env.token_env) {
            return AuthStep::Done(resolve_from_config_and_token(c, kind, token.as_str()));
        }
    }
    if let Some(token) = nonempty_exec(&env.default_env) {
        return AuthStep::Done(resolve_from_config_and_token(c, kind, token.as_str()));
    }
    if kind == AuthKind::OAuth2 {
        return AuthStep::StoredOAuth2;
    }
    if kind == AuthKind::Basic {
        if let Some(username) = &c.username {
            return AuthStep::PromptPassword(username.clone());
        }
    }
    AuthStep::Done(None)
}


/// Seconds of margin when checking an access token's expiry, so that a token
/// about to expire is never sent.
pub const EXPIRY_SKEW_SECS: u64 = 30;

/// Tokens kept after an authorization-code exchange or a refresh.
pub struct OAuthTokens {
    pub access_token: String,
    pub refresh_token: Option<String>,
    /// Seconds since the Unix epoch when `access_token` stops being valid.
    pub expires_at: u64,
    /// The token endpoint, kept so that a refresh needs no configuration.
    pub token_url: String,
    /// The client id, kept for the refresh grant.
    pub client_id: String,
}

impl OAuthTokens {
    /// The access token counts as expired at `now` (seconds since the epoch)
    /// once `now` is within the skew of `expires_at`.
    pub open spec fn expired_at(self, now: int) -> bool {
        now + EXPIRY_SKEW_SECS >= self.expires_at
    }

    /// Whether the access token counts as expired at `now`.
    pub fn is_expired_at(&self, now: u64) -> (r: bool)
        ensures
            r == self.expired_at(now as int),
    {
        now as u128 + EXPIRY_SKEW_SECS as u128 >= self.expires_at as u128
    }

    /// The access token counts as expired at the clock reading `now`.
    pub open spec fn expired_by(self, now: u64) -> bool {
        self.expired_at(now as int)
    }

    /// Whether the access token counts as expired by the machine's clock:
    /// the expiry test at the clock's reading, in seconds since the epoch.
    /// What the clock reads is the machine's; whatever it reads, a token
    /// whose `expires_at` lies within the skew of the epoch is expired.
    pub fn is_expired_now(&self) -> (r: bool)
        ensures
            exists|now: u64| #[trigger] self.expired_by(now) == r,
            self.expires_at <= EXPIRY_SKEW_SECS ==> r,
    {
        let now = crate::fetch::now_secs();
        let r = self.is_expired_at(now);
        assert(self.expired_by(now) == r);
        r
    }
}

/// Tokens from a refresh: a server that sends no new refresh token leaves
/// the old one in place.
pub open spec fn refreshed_keeps(fresh_refresh: Option<Seq<char>>, old_refresh: Option<Seq<char>>) -> Option<Seq<char>> {
    match fresh_refresh {
        Some(r) => Some(r),
        None => old_refresh,
    }
}

/// Keep the old refresh token when a refresh response carried none.
pub fn keep_refresh_token(fresh: OAuthTokens, old: &OAuthTokens) -> (r: OAuthTokens)
    ensures
        r.access_token@ == fresh.access_token@,
        r.expires_at == fresh.expires_at,
        r.token_url@ == fresh.token_url@,
        r.client_id@ == fresh.client_id@,
        opt_view(r.refresh_token) == refreshed_keeps(opt_view(fresh.refresh_token), opt_view(old.refresh_token)),
{
    let mut fresh = fresh;
    if fresh.refresh_token.is_none() {
        fresh.refresh_token = match &old.refresh_token {
            Some(t) => Some(t.clone()),
            None => None,
        };
    }
    fresh
}

/// The refresh token to send, or the error when none is stored.
pub fn refresh_token_of(api_name: &str, tokens: &OAuthTokens) -> (r: Result<String, SpallCliError>)
    ensures
        match r {
            Ok(t) => tokens.refresh_token matches Some(x) && t@ == x@,
            Err(SpallCliError::AuthResolution { api, message }) => tokens.refresh_token is None
                && api@ == api_name@ && message@ == "no refresh_token stored; run `spall auth login` again"@,
            Err(_) => false,
        },
{
    match &tokens.refresh_token {
        Some(t) => Ok(t.clone()),
        None => Err(SpallCliError::AuthResolution {
            api: api_name.to_owned(),
            message: "no refresh_token stored; run `spall auth login` again".to_owned(),
        }),
    }
}

/// A PKCE verifier and its S256 challenge.
pub struct Pkce {
    pub verifier: String,
    pub challenge: String,
}

/// The SHA-256 digest of some bytes, as the `sha2` crate computes it.
pub uninterp spec fn sha256_of(bytes: Seq<u8>) -> Seq<u8>;

/// The base64 letter of a 6-bit value: `A`-`Z`, `a`-`z`, `0`-`9`, then
/// `c62` and `c63`.
pub open spec fn b64_letter(v: int, c62: char, c63: char) -> char {
    if v < 26 {
        (65 + v) as char
    } else if v < 52 {
        (97 + v - 26) as char
    } else if v < 62 {
        (48 + v - 52) as char
    } else if v == 62 {
        c62
    } else {
        c63
    }
}

/// The RFC 4648 base64 text of `b` over the alphabet that ends in `c62`,
/// `c63`: each 3 bytes give 4 letters; a last 1 or 2 bytes give 2 or 3
/// letters (the unused low bits zero), followed by `==` or `=` when `pad`.
pub open spec fn base64_encoding(b: Seq<u8>, c62: char, c63: char, pad: bool) -> Seq<char>
    decreases b.len(),
{
    if b.len() == 0 {
        seq![]
    } else if b.len() == 1 {
        let x = b[0] as int;
        seq![b64_letter(x / 4, c62, c63), b64_letter((x % 4) * 16, c62, c63)]
            + if pad { seq!['=', '='] } else { Seq::<char>::empty() }
    } else if b.len() == 2 {
        let x = b[0] as int;
        let y = b[1] as int;
        seq![b64_letter(x / 4, c62, c63), b64_letter((x % 4) * 16 + y / 16, c62, c63), b64_letter((y % 16) * 4, c62, c63)]
            + if pad { seq!['='] } else { Seq::<char>::empty() }
    } else {
        let x = b[0] as int;
        let y = b[1] as int;
        let z = b[2] as int;
        seq![b64_letter(x / 4, c62, c63), b64_letter((x % 4) * 16 + y / 16, c62, c63),
            b64_letter((y % 16) * 4 + z / 64, c62, c63), b64_letter(z % 64, c62, c63)]
            + base64_encoding(b.subrange(3, b.len() as int), c62, c63, pad)
    }
}

/// The URL-safe, unpadded base64 text of some bytes.
pub open spec fn base64_url_nopad_of(bytes: Seq<u8>) -> Seq<char> {
    base64_encoding(bytes, '-', '_', false)
}

/// The standard, padded base64 text of some bytes.
pub open spec fn base64_std_of(bytes: Seq<u8>) -> Seq<char> {
    base64_encoding(bytes, '+', '/', true)
}

/// Different 6-bit values have different letters, and no letter is `=`.
proof fn lemma_b64_letter(v: int, w: int)
    requires
        0 <= v < 64,
        0 <= w < 64,
    ensures
        b64_letter(v, '+', '/') != '=',
        b64_letter(v, '+', '/') == b64_letter(w, '+', '/') ==> v == w,
{
    assert(((65 + v) as char) as int == 65 + v);
    assert(((97 + v - 26) as char) as int == 97 + v - 26);
    if v >= 52 {
        assert(((48 + v - 52) as char) as int == 48 + v - 52);
    }
    assert(((65 + w) as char) as int == 65 + w);
    assert(((97 + w - 26) as char) as int == 97 + w - 26);
    if w >= 52 {
        assert(((48 + w - 52) as char) as int == 48 + w - 52);
    }
}

/// Different bytes have different standard base64 texts.
pub proof fn lemma_base64_std_injective(a: Seq<u8>, b: Seq<u8>)
    requires
        base64_std_of(a) == base64_std_of(b),
    ensures
        a == b,
    decreases a.len(),
{
    let ea = base64_std_of(a);
    let eb = base64_std_of(b);
    if a.len() == 0 || b.len() == 0 {
        if a.len() > 0 {
            assert(ea.len() > 0);
        }
        if b.len() > 0 {
            assert(eb.len() > 0);
        }
        assert(a =~= b);
    } else {
        let xa = a[0] as int;
        let xb = b[0] as int;
        lemma_b64_letter(xa / 4, xb / 4);
        assert(ea[0] == eb[0]);
        assert(xa / 4 == xb / 4);
        if a.len() >= 2 {
            lemma_b64_letter((xa % 4) * 16 + (a[1] as int) / 16, (xa % 4) * 16 + (a[1] as int) / 16);
        }
        if b.len() >= 2 {
            lemma_b64_letter((xb % 4) * 16 + (b[1] as int) / 16, (xb % 4) * 16 + (b[1] as int) / 16);
        }
        if a.len() >= 3 {
            lemma_b64_letter((((a[1] as int) % 16) * 4 + (a[2] as int) / 64), 0);
            lemma_b64_letter((a[2] as int) % 64, 0);
        }
        if b.len() >= 3 {
            lemma_b64_letter((((b[1] as int) % 16) * 4 + (b[2] as int) / 64), 0);
            lemma_b64_letter((b[2] as int) % 64, 0);
        }
        if a.len() == 2 {
            lemma_b64_letter(((a[1] as int) % 16) * 4, 0);
        }
        if b.len() == 2 {
            lemma_b64_letter(((b[1] as int) % 16) * 4, 0);
        }
        // The padding tells how many bytes the last group held.
        assert(ea.len() == eb.len());
        if a.len() == 1 || b.len() == 1 {
            assert(ea[2] == '=' || eb[2] == '=');
            assert(a.len() == 1 && b.len() == 1);
            lemma_b64_letter((xa % 4) * 16, (xb % 4) * 16);
            assert(ea[1] == eb[1]);
            assert(xa == xb);
            assert(a =~= b);
        } else if a.len() == 2 || b.len() == 2 {
            assert(ea[3] == '=' || eb[3] == '=');
            assert(a.len() == 2 && b.len() == 2);
            let (ya, yb) = (a[1] as int, b[1] as int);
            lemma_b64_letter((xa % 4) * 16 + ya / 16, (xb % 4) * 16 + yb / 16);
            lemma_b64_letter((ya % 16) * 4, (yb % 16) * 4);
            assert(ea[1] == eb[1] && ea[2] == eb[2]);
            assert(xa == xb && ya == yb);
            assert(a =~= b);
        } else {
            let (ya, yb) = (a[1] as int, b[1] as int);
            let (za, zb) = (a[2] as int, b[2] as int);
            lemma_b64_letter((xa % 4) * 16 + ya / 16, (xb % 4) * 16 + yb / 16);
            lemma_b64_letter((ya % 16) * 4 + za / 64, (yb % 16) * 4 + zb / 64);
            lemma_b64_letter(za % 64, zb % 64);
            assert(ea[1] == eb[1] && ea[2] == eb[2] && ea[3] == eb[3]);
            assert(xa == xb && ya == yb && za == zb);
            let ra = a.subrange(3, a.len() as int);
            let rb = b.subrange(3, b.len() as int);
            assert(ea.subrange(4, ea.len() as int) =~= base64_std_of(ra));
            assert(eb.subrange(4, eb.len() as int) =~= base64_std_of(rb));
            lemma_base64_std_injective(ra, rb);
            assert(a =~= b) by {
                assert forall|i: int| 0 <= i < a.len() implies a[i] == b[i] by {
                    if i >= 3 {
                        assert(a[i] == ra[i - 3] && b[i] == rb[i - 3]);
                    }
                }
            }
        }
    }
}

/// `<sha2::Sha256 as Digest>::digest`: the crate's digest, named; it is
/// 32 bytes long.
#[verifier::external_body]
fn sha256(bytes: &[u8]) -> (r: Vec<u8>)
    ensures
        r@ == sha256_of(bytes@),
        r@.len() == 32,
{
    <sha2::Sha256 as sha2::Digest>::digest(bytes).to_vec()
}

/// `base64::engine::general_purpose::URL_SAFE_NO_PAD.encode`: the RFC 4648
/// URL-safe text without padding.
#[verifier::external_body]
fn base64_url_nopad(bytes: &[u8]) -> (r: String)
    ensures
        r@ == base64_url_nopad_of(bytes@),
{
    base64::Engine::encode(&base64::engine::general_purpose::URL_SAFE_NO_PAD, bytes)
}

/// `base64::engine::general_purpose::STANDARD.encode`: the RFC 4648
/// standard text with padding.
#[verifier::external_body]
fn base64_std(bytes: &[u8]) -> (r: String)
    ensures
        r@ == base64_std_of(bytes@),
{
    base64::Engine::encode(&base64::engine::general_purpose::STANDARD, bytes)
}

/// The S256 challenge of a PKCE verifier: the URL-safe unpadded base64 of
/// the SHA-256 of its UTF-8 bytes (RFC 7636).
pub open spec fn pkce_challenge(verifier: Seq<char>) -> Seq<char> {
    base64_url_nopad_of(sha256_of(vstd::utf8::encode_utf8(verifier)))
}

/// Derive the S256 PKCE challenge of a verifier.
pub fn challenge_s256(verifier: &str) -> (r: String)
    ensures
        r@ == pkce_challenge(verifier@),
{
    let digest = sha256(verifier.as_bytes());
    base64_url_nopad(digest.as_slice())
}

/// An ASCII letter or digit.
pub open spec fn is_alnum(c: char) -> bool {
    ('0' <= c && c <= '9') || ('A' <= c && c <= 'Z') || ('a' <= c && c <= 'z')
}

/// `n` characters drawn by `rand`'s thread RNG from its `Alphanumeric`
/// distribution, which the crate documents as uniform over `a-z`, `A-Z` and
/// `0-9`. Nothing is claimed of which characters come out.
#[verifier::external_body]
fn random_alphanumeric(n: usize) -> (r: String)
    ensures
        r@.len() == n,
        forall|i: int| 0 <= i < r@.len() ==> is_alnum(#[trigger] r@[i]),
{
    rand::Rng::sample_iter(rand::thread_rng(), &rand::distributions::Alphanumeric).take(n).map(char::from).collect()
}

/// The length of a generated PKCE verifier.
pub const PKCE_VERIFIER_LEN: usize = 64;

/// The length of a generated OAuth2 `state`.
pub const OAUTH_STATE_LEN: usize = 32;

/// A fresh PKCE pair: a random 64-character alphanumeric verifier and its
/// S256 challenge.
pub fn generate_pkce() -> (p: Pkce)
    ensures
        p.verifier@.len() == PKCE_VERIFIER_LEN,
        forall|i: int| 0 <= i < p.verifier@.len() ==> is_alnum(#[trigger] p.verifier@[i]),
        p.challenge@ == pkce_challenge(p.verifier@),
{
    let verifier = random_alphanumeric(PKCE_VERIFIER_LEN);
    let challenge = challenge_s256(verifier.as_str());
    Pkce { verifier, challenge }
}

/// A fresh random `state` for the authorization request.
pub fn generate_state() -> (s: String)
    ensures
        s@.len() == OAUTH_STATE_LEN,
        forall|i: int| 0 <= i < s@.len() ==> is_alnum(#[trigger] s@[i]),
{
    random_alphanumeric(OAUTH_STATE_LEN)
}

/// The bytes that percent-encoding leaves alone: ASCII letters, digits and
/// `-`, `.`, `_`, `~`.
pub open spec fn is_unreserved(b: u8) -> bool {
    (48 <= b && b <= 57) || (65 <= b && b <= 90) || (97 <= b && b <= 122) || b == 45 || b == 46 || b == 95
        || b == 126
}

/// An uppercase hexadecimal digit.
pub open spec fn hex_upper(d: int) -> char {
    if d < 10 {
        (48 + d) as char
    } else {
        (55 + d) as char
    }
}

/// The percent-encoding of one byte.
pub open spec fn pct_byte(b: u8) -> Seq<char> {
    if is_unreserved(b) {
        seq![b as char]
    } else {
        seq!['%', hex_upper((b / 16) as int), hex_upper((b % 16) as int)]
    }
}

/// The percent-encoding of some bytes.
pub open spec fn pct_bytes(bs: Seq<u8>) -> Seq<char>
    decreases bs.len(),
{
    if bs.len() == 0 {
        seq![]
    } else {
        pct_bytes(bs.drop_last()) + pct_byte(bs.last())
    }
}

/// `urlencoding::encode`: every byte of the UTF-8 text percent-encoded
/// except the unreserved ones.
pub open spec fn url_encoded(s: Seq<char>) -> Seq<char> {
    pct_bytes(vstd::utf8::encode_utf8(s))
}

/// `urlencoding::encode`, which the crate documents as percent-encoding
/// every byte of the UTF-8 text except ASCII letters, digits and `-`, `_`,
/// `.`, `~` (its source writes the hex digits in uppercase).
#[verifier::external_body]
pub(crate) fn url_encode(s: &str) -> (r: String)
    ensures
        r@ == url_encoded(s@),
{
    urlencoding::encode(s).into_owned()
}

/// The authorization URL of the code flow: the endpoint, `?` (or `&` when it
/// already has a query), then `response_type=code`, the URL-encoded client
/// id, redirect URI, challenge with method `S256`, state, and the scopes
/// when there are any.
pub open spec fn authorize_url(
    auth_url: Seq<char>,
    client_id: Seq<char>,
    redirect_uri: Seq<char>,
    scopes: Seq<char>,
    challenge: Seq<char>,
    state: Seq<char>,
) -> Seq<char> {
    let sep = if text::contains(auth_url, "?"@) { "&"@ } else { "?"@ };
    auth_url + sep + "response_type=code&client_id="@ + url_encoded(client_id) + "&redirect_uri="@
        + url_encoded(redirect_uri) + "&code_challenge="@ + url_encoded(challenge)
        + "&code_challenge_method=S256&state="@ + url_encoded(state) + if scopes.len() == 0 {
        Seq::<char>::empty()
    } else {
        "&scope="@ + url_encoded(scopes)
    }
}

/// Build the authorization URL of the code flow (see `authorize_url`).
pub fn build_authorize_url(
    auth_url: &str,
    client_id: &str,
    redirect_uri: &str,
    scopes: &str,
    challenge: &str,
    state: &str,
) -> (r: String)
    ensures
        r@ == authorize_url(auth_url@, client_id@, redirect_uri@, scopes@, challenge@, state@),
{
    let has_query = text::contains_exec(&text::chars_of(auth_url), &lit("?"));
    let mut url = auth_url.to_owned();
    if has_query {
        url.append("&");
    } else {
        url.append("?");
    }
    url.append("response_type=code&client_id=");
    url.append(url_encode(client_id).as_str());
    url.append("&redirect_uri=");
    url.append(url_encode(redirect_uri).as_str());
    url.append("&code_challenge=");
    url.append(url_encode(challenge).as_str());
    url.append("&code_challenge_method=S256&state=");
    url.append(url_encode(state).as_str());
    let sv = text::chars_of(scopes);
    if sv.len() > 0 {
        url.append("&scope=");
        url.append(url_encode(scopes).as_str());
    }
    url
}

/// The redirect URI of the local callback listener on `port`.
pub fn redirect_uri(port: u16) -> (r: String)
    ensures
        r@ == "http://127.0.0.1:"@ + text::dec(port as nat) + "/callback"@,
{
    let mut r = "http://127.0.0.1:".to_owned();
    text::push_dec(&mut r, port as u128);
    r.append("/callback");
    r
}

/// A usage error of the login command for `api`.
pub open spec fn usage_message(api: Seq<char>, msg: Seq<char>) -> Seq<char> {
    "OAuth2 login for '"@ + api + "': "@ + msg
}

/// A usage error of the login command for `api`.
pub fn usage_err(api: &str, msg: &str) -> (e: SpallCliError)
    ensures
        e matches SpallCliError::Usage(m) && m@ == usage_message(api@, msg@),
{
    let mut m = "OAuth2 login for '".to_owned();
    m.append(api);
    m.append("': ");
    m.append(msg);
    SpallCliError::Usage(m)
}

/// What the login flow needs from the configuration.
pub struct LoginParams {
    pub client_id: String,
    pub auth_url: String,
    pub token_url: String,
    /// The scopes joined with spaces (empty when none are configured).
    pub scopes: String,
}

/// The login parameters, or the usage error for the first of `client_id`,
/// `auth_url`, `token_url` that is not configured.
pub fn login_params(api_name: &str, cfg: &AuthConfig) -> (r: Result<LoginParams, SpallCliError>)
    ensures
        match r {
            Ok(p) => {
                &&& opt_view(cfg.client_id) == Some(p.client_id@)
                &&& opt_view(cfg.auth_url) == Some(p.auth_url@)
                &&& opt_view(cfg.token_url) == Some(p.token_url@)
                &&& p.scopes@ == match cfg.scopes {
                    Some(v) => text::join(text::views(v@), " "@),
                    None => Seq::<char>::empty(),
                }
            },
            Err(SpallCliError::Usage(m)) => if cfg.client_id is None {
                m@ == usage_message(api_name@, "`auth.client_id` is required for OAuth2 login"@)
            } else if cfg.auth_url is None {
                m@ == usage_message(api_name@, "`auth.auth_url` is required for OAuth2 login"@)
            } else {
                cfg.token_url is None && m@ == usage_message(api_name@, "`auth.token_url` is required for OAuth2 login"@)
            },
            Err(_) => false,
        },
{
    let client_id = match &cfg.client_id {
        Some(c) => c.clone(),
        None => return Err(usage_err(api_name, "`auth.client_id` is required for OAuth2 login")),
    };
    let auth_url = match &cfg.auth_url {
        Some(a) => a.clone(),
        None => return Err(usage_err(api_name, "`auth.auth_url` is required for OAuth2 login")),
    };
    let token_url = match &cfg.token_url {
        Some(t) => t.clone(),
        None => return Err(usage_err(api_name, "`auth.token_url` is required for OAuth2 login")),
    };
    let scopes = match &cfg.scopes {
        Some(v) => text::join_exec(v, " "),
        None => String::new(),
    };
    Ok(LoginParams { client_id, auth_url, token_url, scopes })
}


/// `k=v` with both sides URL-encoded.
pub open spec fn form_pair(p: (Seq<char>, Seq<char>)) -> Seq<char> {
    url_encoded(p.0) + "="@ + url_encoded(p.1)
}

/// An `application/x-www-form-urlencoded` body of some pairs.
pub open spec fn form_body(pairs: Seq<(Seq<char>, Seq<char>)>) -> Seq<char> {
    text::join(pairs.map_values(|p: (Seq<char>, Seq<char>)| form_pair(p)), "&"@)
}

/// The views of string pairs.
pub open spec fn pair_views(v: Seq<(String, String)>) -> Seq<(Seq<char>, Seq<char>)> {
    v.map_values(|p: (String, String)| (p.0@, p.1@))
}

/// The form body of a token request.
pub fn form_encode(pairs: &Vec<(String, String)>) -> (r: String)
    ensures
        r@ == form_body(pair_views(pairs@)),
{
    let mut parts: Vec<String> = Vec::new();
    let mut i: usize = 0;
    while i < pairs.len()
        invariant
            i <= pairs.len(),
            parts@.len() == i,
            forall|k: int| 0 <= k < i ==> #[trigger] parts@[k]@ == form_pair((pairs@[k].0@, pairs@[k].1@)),
        decreases pairs.len() - i,
    {
        let mut part = url_encode(pairs[i].0.as_str());
        part.append("=");
        part.append(url_encode(pairs[i].1.as_str()).as_str());
        parts.push(part);
        i = i + 1;
    }
    proof {
        assert(text::views(parts@) =~= pair_views(pairs@).map_values(|p: (Seq<char>, Seq<char>)| form_pair(p)));
    }
    text::join_exec(&parts, "&")
}

/// A pair of owned strings.
fn pair(k: &str, v: &str) -> (r: (String, String))
    ensures
        r.0@ == k@,
        r.1@ == v@,
{
    (k.to_owned(), v.to_owned())
}

/// The form of the authorization-code exchange.
pub fn code_exchange_params(code: &str, redirect_uri: &str, client_id: &str, verifier: &str) -> (r: Vec<(String, String)>)
    ensures
        pair_views(r@) == seq![
            ("grant_type"@, "authorization_code"@),
            ("code"@, code@),
            ("redirect_uri"@, redirect_uri@),
            ("client_id"@, client_id@),
            ("code_verifier"@, verifier@),
        ],
{
    let mut r: Vec<(String, String)> = Vec::new();
    r.push(pair("grant_type", "authorization_code"));
    r.push(pair("code", code));
    r.push(pair("redirect_uri", redirect_uri));
    r.push(pair("client_id", client_id));
    r.push(pair("code_verifier", verifier));
    proof {
        assert(pair_views(r@) =~= seq![
            ("grant_type"@, "authorization_code"@),
            ("code"@, code@),
            ("redirect_uri"@, redirect_uri@),
            ("client_id"@, client_id@),
            ("code_verifier"@, verifier@),
        ]);
    }
    r
}

/// The form of the refresh grant.
pub fn refresh_params(refresh_token: &str, client_id: &str) -> (r: Vec<(String, String)>)
    ensures
        pair_views(r@) == seq![
            ("grant_type"@, "refresh_token"@),
            ("refresh_token"@, refresh_token@),
            ("client_id"@, client_id@),
        ],
{
    let mut r: Vec<(String, String)> = Vec::new();
    r.push(pair("grant_type", "refresh_token"));
    r.push(pair("refresh_token", refresh_token));
    r.push(pair("client_id", client_id));
    proof {
        assert(pair_views(r@) =~= seq![
            ("grant_type"@, "refresh_token"@),
            ("refresh_token"@, refresh_token@),
            ("client_id"@, client_id@),
        ]);
    }
    r
}

/// The lifetime assumed for an access token whose response gives none.
pub const DEFAULT_EXPIRES_IN: u64 = 3600;

/// The lifetime a token response grants: `expires_in` when it is a
/// non-negative integer, else an hour.
pub open spec fn expires_in_of(resp: crate::json::JsonV) -> u64 {
    match resp.get("expires_in"@) {
        Some(v) => match v.as_u64() {
            Some(n) => n,
            None => DEFAULT_EXPIRES_IN,
        },
        None => DEFAULT_EXPIRES_IN,
    }
}

/// The string member `key` of a response.
pub open spec fn str_member(resp: crate::json::JsonV, key: Seq<char>) -> Option<Seq<char>> {
    match resp.get(key) {
        Some(v) => v.as_str(),
        None => None,
    }
}

/// The string member `key` of a response.
fn str_member_exec(resp: &crate::json::Json, key: &str) -> (r: Option<String>)
    ensures
        opt_view(r) == str_member(resp@, key@),
{
    match resp.get(key) {
        Some(v) => match v.as_str() {
            Some(s) => Some(s.clone()),
            None => None,
        },
        None => None,
    }
}

/// Tokens from a successful token-endpoint response received at `now`:
/// `access_token` is required (a string), `refresh_token` is kept when it is
/// a string, and the token expires `expires_in` seconds (default an hour)
/// after `now`.
pub fn tokens_from_response(
    api_name: &str,
    resp: &crate::json::Json,
    now: u64,
    token_url: &str,
    client_id: &str,
) -> (r: Result<OAuthTokens, SpallCliError>)
    requires
        now + expires_in_of(resp@) <= u64::MAX,
    ensures
        match r {
            Ok(t) => {
                &&& str_member(resp@, "access_token"@) == Some(t.access_token@)
                &&& opt_view(t.refresh_token) == str_member(resp@, "refresh_token"@)
                &&& t.expires_at == now + expires_in_of(resp@)
                &&& t.token_url@ == token_url@
                &&& t.client_id@ == client_id@
            },
            Err(SpallCliError::AuthResolution { api, message }) => {
                &&& str_member(resp@, "access_token"@) is None
                &&& api@ == api_name@
                &&& message@ == "token response missing access_token"@
            },
            Err(_) => false,
        },
{
    let access_token = match str_member_exec(resp, "access_token") {
        Some(t) => t,
        None => return Err(SpallCliError::AuthResolution {
            api: api_name.to_owned(),
            message: "token response missing access_token".to_owned(),
        }),
    };
    let refresh_token = str_member_exec(resp, "refresh_token");
    let expires_in = match resp.get("expires_in") {
        Some(v) => match v.as_u64() {
            Some(n) => n,
            None => DEFAULT_EXPIRES_IN,
        },
        None => DEFAULT_EXPIRES_IN,
    };
    Ok(OAuthTokens {
        access_token,
        refresh_token,
        expires_at: now + expires_in,
        token_url: token_url.to_owned(),
        client_id: client_id.to_owned(),
    })
}


/// The tokens a successful token-endpoint response body gives at `now`: a
/// body that is not JSON is refused with the parser's message; a lifetime
/// that would carry the expiry past `u64::MAX` is refused; otherwise as
/// `tokens_from_response`.
pub fn tokens_from_body(
    api_name: &str,
    body: &[u8],
    now: u64,
    token_url: &str,
    client_id: &str,
) -> (r: Result<OAuthTokens, SpallCliError>)
    ensures
        match crate::json::json_parsed_bytes(body@) {
            Err(e) => r matches Err(SpallCliError::AuthResolution { api, message })
                && api@ == api_name@ && message@ == "parse token response: "@ + e,
            Ok(v) => if now + expires_in_of(v) > u64::MAX {
                r matches Err(SpallCliError::AuthResolution { api, message })
                    && api@ == api_name@ && message@ == "token lifetime out of range"@
            } else {
                match r {
                    Ok(t) => {
                        &&& str_member(v, "access_token"@) == Some(t.access_token@)
                        &&& opt_view(t.refresh_token) == str_member(v, "refresh_token"@)
                        &&& t.expires_at == now + expires_in_of(v)
                        &&& t.token_url@ == token_url@
                        &&& t.client_id@ == client_id@
                    },
                    Err(SpallCliError::AuthResolution { api, message }) => {
                        &&& str_member(v, "access_token"@) is None
                        &&& api@ == api_name@
                        &&& message@ == "token response missing access_token"@
                    },
                    Err(_) => false,
                }
            },
        },
{
    let v = match crate::json::parse_json_bytes(body) {
        Ok(v) => v,
        Err(e) => {
            let mut m = String::from_str("parse token response: ");
            m.append(e.as_str());
            return Err(SpallCliError::AuthResolution { api: api_name.to_owned(), message: m });
        },
    };
    let expires_in = match v.get("expires_in") {
        Some(x) => match x.as_u64() {
            Some(n) => n,
            None => DEFAULT_EXPIRES_IN,
        },
        None => DEFAULT_EXPIRES_IN,
    };
    if now > u64::MAX - expires_in {
        return Err(SpallCliError::AuthResolution {
            api: api_name.to_owned(),
            message: "token lifetime out of range".to_owned(),
        });
    }
    tokens_from_response(api_name, &v, now, token_url, client_id)
}

/// Whether a byte is an ASCII hexadecimal digit.
pub open spec fn hex_byte(b: u8) -> bool {
    (48 <= b <= 57) || (65 <= b <= 70) || (97 <= b <= 102)
}

/// The value of an ASCII hexadecimal digit.
pub open spec fn hex_value(b: u8) -> int {
    if b <= 57 { b - 48 } else if b <= 70 { b - 55 } else { b - 87 }
}

/// Percent-decoding of bytes: each `%` followed by two hexadecimal digits
/// becomes the byte they give; every other byte (a `%` without two
/// hexadecimal digits after it included) stays as it is.
pub open spec fn percent_decoded(b: Seq<u8>) -> Seq<u8>
    decreases b.len(),
{
    if b.len() == 0 {
        seq![]
    } else if b[0] == 37 && b.len() >= 3 && hex_byte(b[1]) && hex_byte(b[2]) {
        seq![(hex_value(b[1]) * 16 + hex_value(b[2])) as u8] + percent_decoded(b.subrange(3, b.len() as int))
    } else {
        seq![b[0]] + percent_decoded(b.drop_first())
    }
}

/// What `urlencoding::decode` makes of a text: its UTF-8 bytes
/// percent-decoded, read back as UTF-8 (`None` when they are not UTF-8).
pub open spec fn url_decoded_of(s: Seq<char>) -> Option<Seq<char>> {
    let d = percent_decoded(vstd::utf8::encode_utf8(s));
    if vstd::utf8::valid_utf8(d) {
        Some(vstd::utf8::decode_utf8(d))
    } else {
        None
    }
}

/// `urlencoding::decode`: the percent-decoded text (see `url_decoded_of`);
/// its UTF-8 error is mapped to `None`.
#[verifier::external_body]
fn url_decode(s: &str) -> (r: Option<String>)
    ensures
        opt_view(r) == url_decoded_of(s@),
{
    urlencoding::decode(s).ok().map(|c| c.into_owned())
}

/// The first line of a text, as `str::lines` gives it (`\r\n` or `\n` ends
/// a line; an empty text gives an empty line).
pub open spec fn first_line(s: Seq<char>) -> Seq<char> {
    match text::index_of(s, '\n') {
        Some(k) => if k > 0 && s[k - 1] == '\r' {
            s.subrange(0, k - 1)
        } else {
            s.subrange(0, k)
        },
        None => s,
    }
}

/// The query of the callback request: the part after `?` of the request
/// target, the second word of the request line.
pub open spec fn callback_query(request: Seq<char>) -> Option<Seq<char>> {
    let w = crate::chain::words(first_line(request));
    if w.len() >= 2 {
        match text::split_once(w[1], '?') {
            Some((_, q)) => Some(q),
            None => None,
        }
    } else {
        None
    }
}

/// `code` and `state` after reading the `k=v` pieces of a query in order;
/// a later piece overrides an earlier one, and a value that does not decode
/// clears what was read.
pub open spec fn callback_fold(pieces: Seq<Seq<char>>) -> (Option<Seq<char>>, Option<Seq<char>>)
    decreases pieces.len(),
{
    if pieces.len() == 0 {
        (None, None)
    } else {
        let (c, s) = callback_fold(pieces.drop_last());
        match text::split_once(pieces.last(), '=') {
            Some((k, v)) => if k == "code"@ {
                (url_decoded_of(v), s)
            } else if k == "state"@ {
                (c, url_decoded_of(v))
            } else {
                (c, s)
            },
            None => (c, s),
        }
    }
}

/// The `code` and `state` of the authorization callback request, or why
/// they cannot be had.
pub open spec fn callback_result(request: Seq<char>) -> Result<(Seq<char>, Seq<char>), Seq<char>> {
    match callback_query(request) {
        None => Err("callback request had no query string"@),
        Some(q) => match callback_fold(text::split(q, '&')) {
            (Some(c), Some(s)) => Ok((c, s)),
            _ => Err("callback missing code or state: "@ + q),
        },
    }
}

/// The query of the callback request (see `callback_query`).
fn callback_query_exec(request: &str) -> (r: Option<Vec<char>>)
    ensures
        match r {
            Some(q) => callback_query(request@) == Some(q@),
            None => callback_query(request@) is None,
        },
{
    let v = text::chars_of(request);
    let line = match text::find_char(&v, '\n') {
        Some(k) => {
            proof {
                text::lemma_index_of(v@, '\n');
            }
            if k > 0 && v[k - 1] == '\r' {
                text::string_of_range(&v, 0, k - 1)
            } else {
                text::string_of_range(&v, 0, k)
            }
        },
        None => text::string_of(&v),
    };
    let w = crate::chain::split_words(line.as_str());
    if w.len() < 2 {
        return None;
    }
    let target: &Vec<char> = &w[1];
    let n = target.len();
    match text::find_char(target, '?') {
        Some(k) => {
            proof {
                text::lemma_index_of(target@, '?');
                assert(k < n);
            }
            Some(text::v_range(target, k + 1, n))
        },
        None => None,
    }
}

/// Read the `code` and `state` of the authorization callback request.
pub fn parse_callback(request: &str) -> (r: Result<(String, String), SpallCliError>)
    ensures
        match r {
            Ok((c, s)) => callback_result(request@) == Ok::<(Seq<char>, Seq<char>), Seq<char>>((c@, s@)),
            Err(SpallCliError::AuthResolution { api, message }) => api@ == "oauth2"@
                && callback_result(request@) == Err::<(Seq<char>, Seq<char>), Seq<char>>(message@),
            Err(_) => false,
        },
{
    let q = match callback_query_exec(request) {
        Some(q) => q,
        None => return Err(SpallCliError::AuthResolution {
            api: "oauth2".to_owned(),
            message: "callback request had no query string".to_owned(),
        }),
    };
    let pieces = text::split_exec(&q, '&');
    let mut code: Option<String> = None;
    let mut state: Option<String> = None;
    let mut i: usize = 0;
    while i < pieces.len()
        invariant
            i <= pieces.len(),
            pieces@.len() == text::split(q@, '&').len(),
            forall|k: int| 0 <= k < pieces@.len() ==> #[trigger] pieces@[k]@ == text::split(q@, '&')[k],
            (opt_view(code), opt_view(state)) == callback_fold(text::split(q@, '&').subrange(0, i as int)),
        decreases pieces.len() - i,
    {
        proof {
            let all = text::split(q@, '&');
            assert(all.subrange(0, i + 1).drop_last() =~= all.subrange(0, i as int));
            assert(all.subrange(0, i + 1).last() == pieces@[i as int]@);
        }
        let piece = text::string_of(&pieces[i]);
        if let Some((k, v)) = text::split_once_exec(piece.as_str(), '=') {
            if crate::json::str_eq(k.as_str(), "code") {
                code = url_decode(v.as_str());
            } else if crate::json::str_eq(k.as_str(), "state") {
                state = url_decode(v.as_str());
            }
        }
        i = i + 1;
    }
    proof {
        let all = text::split(q@, '&');
        assert(all.subrange(0, all.len() as int) =~= all);
    }
    match (code, state) {
        (Some(c), Some(s)) => Ok((c, s)),
        _ => {
            let mut m = "callback missing code or state: ".to_owned();
            let qs = text::string_of(&q);
            m.append(qs.as_str());
            Err(SpallCliError::AuthResolution { api: "oauth2".to_owned(), message: m })
        },
    }
}


/// Where a credential goes on a request.
pub enum Injection {
    /// A header with this name and value.
    Header(String, String),
    /// A query pair with this name and value.
    Query(String, String),
}

/// Where a credential goes, as plain values: `(in a header, name, value)`.
pub open spec fn injection_of(a: AuthV) -> (bool, Seq<char>, Seq<char>) {
    match a {
        AuthV::Bearer(t) => (true, "Authorization"@, "Bearer "@ + t),
        AuthV::OAuth2(t) => (true, "Authorization"@, "Bearer "@ + t),
        AuthV::Basic { username, password } => (
            true,
            "Authorization"@,
            "Basic "@ + base64_std_of(vstd::utf8::encode_utf8(username + ":"@ + password)),
        ),
        AuthV::ApiKeyHeader { name, key } => (true, name, key),
        AuthV::ApiKeyQuery { name, key } => (false, name, key),
    }
}

/// Where a resolved credential goes on a request: bearer and OAuth2 tokens
/// as `Authorization: Bearer <token>`, Basic as `Authorization: Basic
/// <base64 of user:pass>`, API keys in their header or query pair.
pub fn apply(auth: &ResolvedAuth) -> (r: Injection)
    ensures
        match r {
            Injection::Header(n, v) => injection_of(auth@) == (true, n@, v@),
            Injection::Query(n, v) => injection_of(auth@) == (false, n@, v@),
        },
{
    match auth {
        ResolvedAuth::Bearer(t) => {
            let mut v = "Bearer ".to_owned();
            v.append(t.as_str());
            Injection::Header("Authorization".to_owned(), v)
        },
        ResolvedAuth::OAuth2(t) => {
            let mut v = "Bearer ".to_owned();
            v.append(t.as_str());
            Injection::Header("Authorization".to_owned(), v)
        },
        ResolvedAuth::Basic { username, password } => {
            let mut creds = username.clone();
            creds.append(":");
            creds.append(password.as_str());
            let mut v = "Basic ".to_owned();
            v.append(base64_std(creds.as_str().as_bytes()).as_str());
            Injection::Header("Authorization".to_owned(), v)
        },
        ResolvedAuth::ApiKey { key, location } => match location {
            ApiKeyLocation::Header { name } => Injection::Header(name.clone(), key.clone()),
            ApiKeyLocation::Query { name } => Injection::Query(name.clone(), key.clone()),
        },
    }
}


/// A `--spall-auth` value wins over any configuration and environment.
pub proof fn law_cli_override_wins(raw: Seq<char>, cfg: Option<AuthConfig>, env: AuthEnv)
    ensures
        auth_step(Some(raw), cfg, env) == AuthStepV::Done(Some(cli_auth_of(raw, base64_text(raw.subrange(6, raw.len() as int))))),
{
}

/// Without a `--spall-auth` value or a configuration, no credential is sent.
pub proof fn law_no_config_no_credential(env: AuthEnv)
    ensures
        auth_step(None, None, env) == AuthStepV::Done(None),
{
}

/// A bare credential is read as Basic only when it holds exactly one colon
/// with text on both sides; anything else (more colons, an empty half) is a
/// bearer token carried verbatim.
pub proof fn law_ambiguous_bare_is_bearer(raw: Seq<char>)
    requires
        count_char(raw, ':') != 1 || (text::split_once(raw, ':') matches Some((u, p)) && (u.len() == 0 || p.len() == 0)),
    ensures
        bare_auth(raw) == AuthV::Bearer(raw),
{
}

/// Once an access token counts as expired it stays expired.
pub proof fn law_expiry_is_permanent(t: OAuthTokens, now: int, later: int)
    requires
        t.expired_at(now),
        now <= later,
    ensures
        t.expired_at(later),
{
}

} // verus!
