use spall_cli::auth::{
    apply, build_authorize_url, challenge_s256, code_exchange_params, form_encode, generate_pkce,
    generate_state, keep_refresh_token, login_params, parse_callback, parse_cli_auth,
    redirect_uri, refresh_params, refresh_token_of, resolve_from_config_and_token, resolve_step,
    tokens_from_response, usage_err, ApiKeyLocation, AuthConfig, AuthEnv, AuthKind, AuthStep,
    Injection, OAuthTokens, ResolvedAuth,
};
use spall_cli::error::SpallCliError;
use spall_cli::json::Json;

fn s(x: &str) -> String {
    x.to_string()
}

fn cfg(kind: Option<AuthKind>) -> AuthConfig {
    AuthConfig {
        kind,
        token: None,
        token_env: None,
        token_url: None,
        username: None,
        password_env: None,
        location: None,
        header_name: None,
        query_name: None,
        client_id: None,
        auth_url: None,
        scopes: None,
    }
}

fn no_env() -> AuthEnv {
    AuthEnv { password_env: None, token_env: None, default_env: None }
}

fn bearer(step: AuthStep) -> Option<String> {
    match step {
        AuthStep::Done(Some(ResolvedAuth::Bearer(t))) => Some(t),
        _ => None,
    }
}

fn basic(step: AuthStep) -> Option<(String, String)> {
    match step {
        AuthStep::Done(Some(ResolvedAuth::Basic { username, password })) => Some((username, password)),
        _ => None,
    }
}

fn tokens(expires_at: u64) -> OAuthTokens {
    OAuthTokens {
        access_token: s("x"),
        refresh_token: None,
        expires_at,
        token_url: String::new(),
        client_id: String::new(),
    }
}

#[test]
fn cli_override_bearer() {
    let c = cfg(Some(AuthKind::Bearer));
    let step = resolve_step(Some("Bearer abc123"), Some(&c), &no_env());
    assert_eq!(bearer(step), Some(s("abc123")));
}

#[test]
fn cli_override_basic_shorthand() {
    let c = cfg(Some(AuthKind::Basic));
    let step = resolve_step(Some("alice:secret"), Some(&c), &no_env());
    assert_eq!(basic(step), Some((s("alice"), s("secret"))));
}

#[test]
fn cli_override_url_shaped_is_bearer() {
    let step = resolve_step(Some("https://example.com"), None, &no_env());
    assert_eq!(bearer(step), Some(s("https://example.com")));
}

#[test]
fn cli_override_multi_colon_is_bearer() {
    let step = resolve_step(Some("a:b:c"), None, &no_env());
    assert_eq!(bearer(step), Some(s("a:b:c")));
}

#[test]
fn cli_override_empty_half_is_bearer() {
    assert!(bearer(resolve_step(Some(":secret"), None, &no_env())).is_some());
    assert!(bearer(resolve_step(Some("user:"), None, &no_env())).is_some());
}

#[test]
fn cli_override_whitespace_is_bearer() {
    assert_eq!(bearer(resolve_step(Some("a b:c"), None, &no_env())), Some(s("a b:c")));
}

#[test]
fn cli_basic_prefix_decodes_base64() {
    let step = resolve_step(Some("Basic YWxpY2U6c2VjcmV0"), None, &no_env());
    assert_eq!(basic(step), Some((s("alice"), s("secret"))));
}

#[test]
fn cli_basic_prefix_falls_back_to_literal_pair() {
    match parse_cli_auth("Basic bob:pw") {
        ResolvedAuth::Basic { username, password } => {
            assert_eq!(username, "bob");
            assert_eq!(password, "pw");
        }
        _ => panic!("expected Basic"),
    }
}

#[test]
fn inline_token_warns_and_resolves() {
    let mut c = cfg(Some(AuthKind::Bearer));
    c.token = Some(s("tkn"));
    assert_eq!(bearer(resolve_step(None, Some(&c), &no_env())), Some(s("tkn")));
}

#[test]
fn token_env_resolves() {
    let mut c = cfg(Some(AuthKind::Bearer));
    c.token_env = Some(s("SPALL_AUTH_TEST_TOKEN"));
    let env = AuthEnv { password_env: None, token_env: Some(s("env-tkn")), default_env: None };
    assert_eq!(bearer(resolve_step(None, Some(&c), &env)), Some(s("env-tkn")));
}

#[test]
fn empty_env_values_count_as_unset() {
    let mut c = cfg(Some(AuthKind::Bearer));
    c.token_env = Some(s("T"));
    let env = AuthEnv { password_env: None, token_env: Some(String::new()), default_env: Some(s("global")) };
    assert_eq!(bearer(resolve_step(None, Some(&c), &env)), Some(s("global")));
}

#[test]
fn no_auth_config_returns_none() {
    assert!(matches!(resolve_step(None, None, &no_env()), AuthStep::Done(None)));
}

#[test]
fn oauth2_without_tokens_uses_the_stored_login() {
    let c = cfg(Some(AuthKind::OAuth2));
    assert!(matches!(resolve_step(None, Some(&c), &no_env()), AuthStep::StoredOAuth2));
}

#[test]
fn basic_with_username_prompts_for_password() {
    let mut c = cfg(Some(AuthKind::Basic));
    c.username = Some(s("carol"));
    assert!(matches!(resolve_step(None, Some(&c), &no_env()), AuthStep::PromptPassword(u) if u == "carol"));
    c.password_env = Some(s("PW"));
    let env = AuthEnv { password_env: Some(s("pw1")), token_env: None, default_env: None };
    assert_eq!(basic(resolve_step(None, Some(&c), &env)), Some((s("carol"), s("pw1"))));
}

#[test]
fn api_key_goes_to_query_or_header() {
    let mut c = cfg(Some(AuthKind::ApiKey));
    match resolve_from_config_and_token(&c, AuthKind::ApiKey, "k1") {
        Some(ResolvedAuth::ApiKey { key, location: ApiKeyLocation::Header { name } }) => {
            assert_eq!(key, "k1");
            assert_eq!(name, "X-Api-Key");
        }
        _ => panic!("expected a header key"),
    }
    c.location = Some(s("query"));
    match resolve_from_config_and_token(&c, AuthKind::ApiKey, "k1") {
        Some(ResolvedAuth::ApiKey { location: ApiKeyLocation::Query { name }, .. }) => assert_eq!(name, "api_key"),
        _ => panic!("expected a query key"),
    }
}

#[test]
fn basic_config_token_without_colon_is_bearer() {
    let c = cfg(Some(AuthKind::Basic));
    assert!(matches!(resolve_from_config_and_token(&c, AuthKind::Basic, "plain"), Some(ResolvedAuth::Bearer(t)) if t == "plain"));
    let mut c2 = cfg(Some(AuthKind::Basic));
    c2.username = Some(s("u"));
    assert!(matches!(
        resolve_from_config_and_token(&c2, AuthKind::Basic, "old:pw"),
        Some(ResolvedAuth::Basic { username, password }) if username == "u" && password == "pw"
    ));
}

#[test]
fn injection_of_credentials() {
    match apply(&ResolvedAuth::Basic { username: s("user"), password: s("pass") }) {
        Injection::Header(n, v) => {
            assert_eq!(n, "Authorization");
            assert_eq!(v, "Basic dXNlcjpwYXNz");
        }
        _ => panic!("expected a header"),
    }
    match apply(&ResolvedAuth::OAuth2(s("tok"))) {
        Injection::Header(n, v) => {
            assert_eq!(n, "Authorization");
            assert_eq!(v, "Bearer tok");
        }
        _ => panic!("expected a header"),
    }
    match apply(&ResolvedAuth::ApiKey { key: s("k"), location: ApiKeyLocation::Query { name: s("api_key") } }) {
        Injection::Query(n, v) => {
            assert_eq!(n, "api_key");
            assert_eq!(v, "k");
        }
        _ => panic!("expected a query pair"),
    }
}

#[test]
fn challenge_s256_matches_rfc7636_test_vector() {
    let verifier = "dBjftJeZ4CVP-mB92K27uhbUJU1p1r_wW1gFWFOEjXk";
    let challenge = challenge_s256(verifier);
    assert_eq!(challenge, "E9Melhoa2OwvFrEMTJguCHaoeK1t8URWbuGJSstw-cM");
}

#[test]
fn generated_pkce_pair_round_trips() {
    let p = generate_pkce();
    assert!(p.verifier.len() >= 43 && p.verifier.len() <= 128);
    assert_eq!(p.challenge, challenge_s256(&p.verifier));
    assert!(p.verifier.chars().all(|c| c.is_ascii_alphanumeric()));
}

#[test]
fn generated_state_is_alphanumeric() {
    let st = generate_state();
    assert_eq!(st.len(), 32);
    assert!(st.chars().all(|c| c.is_ascii_alphanumeric()));
}

#[test]
fn expiry_skew_treats_near_expiry_as_expired() {
    let now = std::time::SystemTime::now().duration_since(std::time::UNIX_EPOCH).unwrap().as_secs();
    let t = tokens(now + 10);
    assert!(t.is_expired_now());
}

#[test]
fn expiry_at_fixed_instants() {
    let t = tokens(1_000);
    assert!(!t.is_expired_at(969));
    assert!(t.is_expired_at(970));
    assert!(t.is_expired_at(2_000));
    assert!(tokens(20).is_expired_now());
}

#[test]
fn build_authorize_url_appends_query_separator_correctly() {
    let url = build_authorize_url(
        "https://idp/auth",
        "cid",
        "http://127.0.0.1:9999/callback",
        "repo user",
        "challenge",
        "state",
    );
    assert!(url.starts_with("https://idp/auth?response_type=code"));
    assert!(url.contains("scope=repo%20user"));
    assert!(url.contains("code_challenge=challenge"));

    let url2 = build_authorize_url("https://idp/auth?prompt=login", "cid", "http://x/cb", "", "ch", "st");
    assert!(url2.contains("?prompt=login&response_type=code"));
    assert!(!url2.contains("scope="));
}

#[test]
fn build_authorize_url_exact_form() {
    let url = build_authorize_url("https://idp/auth", "c id", "http://x/cb", "", "ch", "st");
    assert_eq!(
        url,
        "https://idp/auth?response_type=code&client_id=c%20id&redirect_uri=http%3A%2F%2Fx%2Fcb&code_challenge=ch&code_challenge_method=S256&state=st"
    );
}

#[test]
fn redirect_uri_names_the_port() {
    assert_eq!(redirect_uri(8123), "http://127.0.0.1:8123/callback");
}

#[test]
fn login_requires_client_id_then_urls() {
    let mut c = cfg(Some(AuthKind::OAuth2));
    match login_params("gh", &c) {
        Err(SpallCliError::Usage(m)) => {
            assert_eq!(m, "OAuth2 login for 'gh': `auth.client_id` is required for OAuth2 login")
        }
        _ => panic!("expected usage error"),
    }
    c.client_id = Some(s("cid"));
    c.auth_url = Some(s("https://idp/auth"));
    match login_params("gh", &c) {
        Err(SpallCliError::Usage(m)) => assert!(m.contains("`auth.token_url` is required")),
        _ => panic!("expected usage error"),
    }
    c.token_url = Some(s("https://idp/token"));
    c.scopes = Some(vec![s("repo"), s("user")]);
    let p = login_params("gh", &c).ok().unwrap();
    assert_eq!(p.scopes, "repo user");
    assert_eq!(p.token_url, "https://idp/token");
    assert!(matches!(usage_err("a", "b"), SpallCliError::Usage(m) if m == "OAuth2 login for 'a': b"));
}

#[test]
fn token_request_bodies() {
    let body = form_encode(&code_exchange_params("c/1", "http://x/cb", "cid", "ver"));
    assert_eq!(
        body,
        "grant_type=authorization_code&code=c%2F1&redirect_uri=http%3A%2F%2Fx%2Fcb&client_id=cid&code_verifier=ver"
    );
    assert_eq!(form_encode(&refresh_params("rt", "cid")), "grant_type=refresh_token&refresh_token=rt&client_id=cid");
}

#[test]
fn token_response_is_read() {
    let resp = Json::Object(vec![
        (s("access_token"), Json::Str(s("AT"))),
        (s("refresh_token"), Json::Str(s("RT"))),
        (s("expires_in"), Json::Number(s("60"))),
    ]);
    let t = tokens_from_response("gh", &resp, 1_000, "https://idp/token", "cid").ok().unwrap();
    assert_eq!(t.access_token, "AT");
    assert_eq!(t.refresh_token, Some(s("RT")));
    assert_eq!(t.expires_at, 1_060);
    let no_expiry = Json::Object(vec![(s("access_token"), Json::Str(s("AT")))]);
    let t2 = tokens_from_response("gh", &no_expiry, 1_000, "u", "c").ok().unwrap();
    assert_eq!(t2.expires_at, 4_600);
    assert!(t2.refresh_token.is_none());
    let missing = Json::Object(vec![]);
    match tokens_from_response("gh", &missing, 0, "u", "c") {
        Err(SpallCliError::AuthResolution { api, message }) => {
            assert_eq!(api, "gh");
            assert_eq!(message, "token response missing access_token");
        }
        _ => panic!("expected an auth error"),
    }
}

#[test]
fn refresh_keeps_old_refresh_token() {
    let mut old = tokens(1);
    old.refresh_token = Some(s("old-rt"));
    let fresh = tokens(99);
    let merged = keep_refresh_token(fresh, &old);
    assert_eq!(merged.refresh_token, Some(s("old-rt")));
    assert_eq!(merged.expires_at, 99);
    assert_eq!(refresh_token_of("gh", &old).ok().unwrap(), "old-rt");
    assert!(matches!(refresh_token_of("gh", &tokens(1)), Err(SpallCliError::AuthResolution { .. })));
}

#[test]
fn callback_request_yields_code_and_state() {
    let req = "GET /callback?code=abc%20d&state=xyz HTTP/1.1\r\nHost: 127.0.0.1\r\n\r\n";
    let (code, state) = parse_callback(req).ok().unwrap();
    assert_eq!(code, "abc d");
    assert_eq!(state, "xyz");
}

#[test]
fn callback_without_query_or_fields_errors() {
    match parse_callback("GET /callback HTTP/1.1\r\n") {
        Err(SpallCliError::AuthResolution { api, message }) => {
            assert_eq!(api, "oauth2");
            assert_eq!(message, "callback request had no query string");
        }
        _ => panic!("expected an error"),
    }
    match parse_callback("GET /callback?code=a HTTP/1.1\r\n") {
        Err(SpallCliError::AuthResolution { message, .. }) => {
            assert_eq!(message, "callback missing code or state: code=a")
        }
        _ => panic!("expected an error"),
    }
}

#[test]
fn basic_credentials_are_padded_base64() {
    let header = |u: &str, p: &str| match apply(&ResolvedAuth::Basic { username: s(u), password: s(p) }) {
        Injection::Header(_, v) => v,
        _ => panic!("expected a header"),
    };
    assert_eq!(header("ab", "c"), "Basic YWI6Yw==");
    assert_eq!(header("ab", "cd"), "Basic YWI6Y2Q=");
    assert_eq!(header("ab", "cde"), "Basic YWI6Y2Rl");
    assert_eq!(header("", ""), "Basic Og==");
}

#[test]
fn basic_token_decodes_only_canonical_base64() {
    match parse_cli_auth("Basic YWI6Yw==") {
        ResolvedAuth::Basic { username, password } => {
            assert_eq!(username, "ab");
            assert_eq!(password, "c");
        }
        _ => panic!("expected Basic"),
    }
    let unpadded = parse_cli_auth("Basic YWI6Yw");
    assert!(!matches!(unpadded, ResolvedAuth::Basic { ref username, .. } if username == "ab"));
}
