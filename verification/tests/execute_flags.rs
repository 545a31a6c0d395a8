use spall_cli::headers::{located_params, overlay_caller_headers, request_headers};
use spall_cli::execute::{
    apply_raw_body, args_from_flags, exec_route, ExecRoute, OperationFlags, ProgrammaticArgs,
};
use spall_cli::http::{
    check_client_identity, config_from_flags, merged_many, merged_one, ClientFlags, HttpConfig,
};
use spall_cli::ir::{ParamInfo, ParameterLocation, SchemaInfo};
use spall_cli::json::Json;

fn s(x: &str) -> String {
    x.to_string()
}

fn pair(k: &str, v: &str) -> (String, String) {
    (s(k), s(v))
}

fn schema() -> SchemaInfo {
    SchemaInfo {
        schema_type: Some(s("string")),
        format: None,
        description: None,
        default: None,
        enum_values: Vec::new(),
        nullable: false,
        is_recursive: false,
        pattern: None,
        min_length: None,
        max_length: None,
        minimum: None,
        maximum: None,
        multiple_of: None,
        exclusive_minimum: false,
        exclusive_maximum: false,
        min_items: None,
        max_items: None,
        unique_items: false,
        additional_properties: true,
        properties: Vec::new(),
        items: None,
    }
}

fn param(name: &str, location: ParameterLocation) -> ParamInfo {
    ParamInfo {
        name: s(name),
        location,
        required: false,
        deprecated: false,
        style: s("form"),
        explode: false,
        description: None,
        cli_name: None,
        schema: schema(),
    }
}

fn no_flags(n: usize) -> OperationFlags {
    OperationFlags {
        param_values: vec![None; n],
        header_flags: Vec::new(),
        server_after: None,
        server_before: None,
        auth: None,
        retry: None,
        retry_max_wait: None,
    }
}

fn client_flags() -> ClientFlags {
    ClientFlags {
        timeout_secs: None,
        retry: None,
        redirect: false,
        max_redirects: None,
        insecure: false,
        ca_cert: None,
        cert: None,
        key: None,
        no_proxy: false,
        proxy: None,
        server: None,
        auth: None,
        headers: Vec::new(),
    }
}

#[test]
fn flag_after_operation_wins() {
    assert_eq!(merged_one(Some(2), Some(1)), Some(2));
    assert_eq!(merged_one(None, Some(1)), Some(1));
    assert_eq!(merged_one::<u8>(None, None), None);
    assert_eq!(merged_many(Some(vec![s("a")]), Some(vec![s("b"), s("c")])), vec![s("a")]);
    assert_eq!(merged_many(None, Some(vec![s("b")])), vec![s("b")]);
    assert!(merged_many(None, None).is_empty());
}

#[test]
fn client_config_defaults_without_flags() {
    let c = config_from_flags(client_flags());
    assert_eq!(c.timeout_secs, 30);
    assert_eq!(c.retry, 1);
    assert!(!c.follow_redirects);
    assert_eq!(c.max_redirects, 10);
    assert!(c.custom_headers.is_empty());
    assert_eq!(c.user_agent, HttpConfig::default().user_agent);
}

#[test]
fn client_config_takes_every_flag() {
    let mut f = client_flags();
    f.timeout_secs = Some(5);
    f.retry = Some(3);
    f.redirect = true;
    f.max_redirects = Some(2);
    f.insecure = true;
    f.proxy = Some(s("http://proxy:8080"));
    f.server = Some(s("https://alt"));
    f.auth = Some(s("Bearer t"));
    f.headers = vec![s(" X-A : 1 "), s("no-colon"), s("X-B:two:parts")];
    let c = config_from_flags(f);
    assert_eq!(c.timeout_secs, 5);
    assert_eq!(c.retry, 3);
    assert!(c.follow_redirects && c.insecure);
    assert_eq!(c.max_redirects, 2);
    assert_eq!(c.proxy.as_deref(), Some("http://proxy:8080"));
    assert_eq!(c.base_url_override.as_deref(), Some("https://alt"));
    assert_eq!(c.auth_header.as_deref(), Some("Bearer t"));
    assert_eq!(c.custom_headers, vec![pair("X-A", "1"), pair("X-B", "two:parts")]);
}

#[test]
fn parameter_values_land_in_their_buckets() {
    let params = vec![
        param("id", ParameterLocation::Path),
        param("limit", ParameterLocation::Query),
        param("X-Trace", ParameterLocation::Header),
        param("session", ParameterLocation::Cookie),
        param("id", ParameterLocation::Query),
        param("skipped", ParameterLocation::Query),
    ];
    let mut f = no_flags(6);
    f.param_values = vec![Some(s("7")), Some(s("5")), Some(s("t1")), Some(s("abc")), Some(s("q7")), None];
    f.header_flags = vec![s("X-Trace: override"), s("Accept: text/plain"), s("bogus")];
    f.server_before = Some(s("https://before"));
    f.auth = Some(s("token"));
    f.retry = Some(0);
    let a = args_from_flags(&params, f, HttpConfig::default());
    assert_eq!(a.path, vec![pair("id", "7")]);
    assert_eq!(a.query, vec![pair("id", "q7"), pair("limit", "5")]);
    assert_eq!(a.header, vec![pair("Accept", "text/plain"), pair("X-Trace", "override")]);
    assert_eq!(a.cookie, vec![pair("session", "abc")]);
    assert!(a.query_extras.is_empty());
    assert_eq!(a.server_override.as_deref(), Some("https://before"));
    assert_eq!(a.auth_override.as_deref(), Some("token"));
    assert_eq!(a.retry_count, 0);
    assert_eq!(a.retry_max_wait_secs, 60);
}

#[test]
fn server_after_operation_overrides_before() {
    let mut f = no_flags(0);
    f.server_after = Some(s("https://after"));
    f.server_before = Some(s("https://before"));
    f.retry_max_wait = Some(9);
    let a = args_from_flags(&Vec::new(), f, HttpConfig::default());
    assert_eq!(a.server_override.as_deref(), Some("https://after"));
    assert_eq!(a.retry_count, 1);
    assert_eq!(a.retry_max_wait_secs, 9);
}

#[test]
fn request_route_follows_flags_and_body() {
    assert!(matches!(exec_route(true, true, true, true, true, true), ExecRoute::DryRun));
    assert!(matches!(exec_route(false, true, true, false, false, false), ExecRoute::Preview));
    assert!(matches!(exec_route(false, false, true, false, false, false), ExecRoute::Direct));
    assert!(matches!(exec_route(false, false, false, true, true, true), ExecRoute::Direct));
    assert!(matches!(exec_route(false, false, false, false, true, false), ExecRoute::Direct));
    assert!(matches!(exec_route(false, false, false, false, true, true), ExecRoute::Pipeline));
    assert!(matches!(exec_route(false, false, false, false, false, false), ExecRoute::Pipeline));
}

#[test]
fn raw_body_goes_in_as_json_with_its_content_type() {
    let mut a = ProgrammaticArgs::new();
    let consumed = apply_raw_body(&mut a, false, Some(b"true".as_slice()), Some(s("application/vnd.x+json")));
    assert!(consumed);
    assert_eq!(a.header, vec![pair("Content-Type", "application/vnd.x+json")]);
    assert!(matches!(a.body, Some(Json::Bool(true))));

    let mut b = ProgrammaticArgs::new();
    assert!(!apply_raw_body(&mut b, false, Some(b"hello world".as_slice()), Some(s("text/plain"))));
    assert_eq!(b.header, vec![pair("Content-Type", "text/plain")]);
    assert!(b.body.is_none());

    let mut c = ProgrammaticArgs::new();
    assert!(!apply_raw_body(&mut c, true, Some(b"null".as_slice()), Some(s("text/plain"))));
    assert!(c.header.is_empty() && c.body.is_none());
}

#[test]
fn programmatic_default_has_one_retry() {
    let args = ProgrammaticArgs::default();
    assert_eq!(args.retry_count, 1);
    assert_eq!(args.retry_max_wait_secs, 60);
}

#[test]
fn build_client_with_client_cert_but_no_key_errors() {
    let cfg = HttpConfig { client_cert: Some(s("/some/cert.pem")), ..Default::default() };
    let err = check_client_identity(&cfg.client_cert, &cfg.client_key).expect_err("should fail");
    assert!(err.contains("--spall-key"), "msg: {}", err);
}

#[test]
fn build_client_with_client_key_but_no_cert_errors() {
    let cfg = HttpConfig { client_key: Some(s("/some/key.pem")), ..Default::default() };
    let err = check_client_identity(&cfg.client_cert, &cfg.client_key).expect_err("should fail");
    assert!(err.contains("--spall-cert"), "msg: {}", err);
}

#[test]
fn direct_request_headers_lowercase_and_fall_back() {
    let defaults = vec![pair("X-Client", "cli"), pair("Bad Name", "v"), pair("X-Ctl", "a\u{1}b")];
    let flags = vec![s("x-client: override"), s("Accept: application/json"), s("nocolon")];
    let auth = vec![pair("authorization", "Bearer t"), pair("bad header", "x"), pair("x-key", "line\nbreak")];
    let h = request_headers(&defaults, &flags, Some(s("a=1; b=2")), &auth, Some(s("text/plain")));
    assert_eq!(
        h,
        vec![
            pair("x-client", "override"),
            pair("x-unknown", "v"),
            pair("x-ctl", "invalid"),
            pair("accept", "application/json"),
            pair("cookie", "a=1; b=2"),
            pair("authorization", "Bearer t"),
            pair("content-type", "text/plain"),
        ]
    );
}

#[test]
fn direct_request_headers_refused_cookie_and_content_type() {
    let h = request_headers(&Vec::new(), &Vec::new(), Some(s("a=\u{7f}")), &Vec::new(), Some(s("bad\u{0}type")));
    assert_eq!(h, vec![pair("cookie", ""), pair("content-type", "application/octet-stream")]);
    assert!(request_headers(&Vec::new(), &Vec::new(), None, &Vec::new(), None).is_empty());
}

#[test]
fn located_params_keep_order_and_repeats() {
    let params = vec![
        param("a", ParameterLocation::Query),
        param("sid", ParameterLocation::Cookie),
        param("a", ParameterLocation::Query),
        param("b", ParameterLocation::Query),
        param("id", ParameterLocation::Path),
    ];
    let values = vec![Some(s("1")), Some(s("xyz")), Some(s("2")), None, Some(s("9"))];
    assert_eq!(located_params(&params, &values, ParameterLocation::Query), vec![pair("a", "1"), pair("a", "2")]);
    assert_eq!(located_params(&params, &values, ParameterLocation::Cookie), vec![pair("sid", "xyz")]);
    assert!(located_params(&params, &values, ParameterLocation::Header).is_empty());
}

#[test]
fn programmatic_caller_header_overrides_auth() {
    let mut h = vec![pair("authorization", "Bearer from-auth"), pair("x-api-key", "k")];
    let caller = vec![pair("Authorization", "Bearer caller"), pair("X-Extra", "1")];
    overlay_caller_headers(&mut h, &caller);
    assert_eq!(
        h,
        vec![pair("authorization", "Bearer caller"), pair("x-api-key", "k"), pair("x-extra", "1")]
    );
}
