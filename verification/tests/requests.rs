use spall_cli::discover::{
    default_name_from_url, discover_spec_url, discovered_api, extract_title, guess_well_known,
    parse_service_desc_link, resolve_absolute_url, slugify,
};
use spall_cli::error::SpallCliError;
use spall_cli::execute::{
    cookie_header, max_attempts, next_send_action, parse_retry_after, raise_for_status,
    resolve_body, resolve_next_url, BodyFlags, BodyPlan, FormPart, OperationResult, SendAction,
    SendEvent,
};
use spall_cli::json::Json;
use spall_cli::execute::build_url_with_path_args;

fn s(x: &str) -> String {
    x.to_string()
}

fn result(status: u16) -> OperationResult {
    OperationResult { status, raw: None, value: Json::Null, headers: Vec::new() }
}

fn flags() -> BodyFlags {
    BodyFlags {
        has_body: true,
        required: false,
        no_data: false,
        data: None,
        content_type: None,
        form: None,
        field: None,
    }
}

#[test]
fn service_desc_link_is_found_among_links() {
    let h = r#"<https://api.example.com/docs>; rel="describedby", <https://api.example.com/openapi.json>; rel="service-desc""#;
    assert_eq!(parse_service_desc_link(h), Some(s("https://api.example.com/openapi.json")));
    assert_eq!(parse_service_desc_link("<https://x/o.json>; rel=service-desc"), Some(s("https://x/o.json")));
    assert_eq!(parse_service_desc_link(r#"<https://x/a>; rel="next""#), None);
}

#[test]
fn service_desc_quoted_target() {
    assert_eq!(parse_service_desc_link(r#""https://x/spec.yaml"; rel='service-desc'"#), Some(s("https://x/spec.yaml")));
}

#[test]
fn well_known_paths_join_onto_the_base() {
    assert_eq!(guess_well_known("https://api.example.com/v1/"), Some(s("https://api.example.com/openapi.json")));
    assert_eq!(guess_well_known("not a url"), None);
}

#[test]
fn relative_locations_are_made_absolute() {
    assert_eq!(resolve_absolute_url("https://a.com/x/", Some(s("spec.json"))), Some(s("https://a.com/x/spec.json")));
    assert_eq!(resolve_absolute_url("https://a.com/", Some(s("http://b.com/s"))), Some(s("http://b.com/s")));
    assert_eq!(resolve_absolute_url("https://a.com/", None), None);
}

#[test]
fn spec_url_falls_back_to_well_known_then_errors() {
    assert_eq!(
        discover_spec_url("https://a.com/", Some(r#"<https://a.com/o.json>; rel="service-desc""#)).ok(),
        Some(s("https://a.com/o.json"))
    );
    assert_eq!(discover_spec_url("https://a.com/", None).ok(), Some(s("https://a.com/openapi.json")));
    match discover_spec_url("nope", None) {
        Err(SpallCliError::Usage(m)) => assert_eq!(
            m,
            "Could not discover spec from nope. No Link: rel=service-desc header found and no well-known path guessed."
        ),
        _ => panic!("expected a usage error"),
    }
}

#[test]
fn title_from_json_or_yaml() {
    let spec = Json::Object(vec![(s("info"), Json::Object(vec![(s("title"), Json::Str(s("Pet Store")))]))]);
    assert_eq!(extract_title(b"{}", Some(&spec)), Some(s("Pet Store")));
    let no_info = Json::Object(vec![]);
    assert_eq!(extract_title(b"title: ignored", Some(&no_info)), None);
    let yaml = b"openapi: 3.0.0\ninfo:\n  title: \"My API\"\r\n  version: 1\n";
    assert_eq!(extract_title(yaml, None), Some(s("My API")));
    assert_eq!(extract_title(b"nothing here", None), None);
}

#[test]
fn default_names_come_from_the_host() {
    assert_eq!(default_name_from_url("https://api.example.com:8443/v1"), "api.example.com");
    assert_eq!(default_name_from_url("http://localhost/x"), "localhost");
    assert_eq!(default_name_from_url("example.org"), "example.org");
}

#[test]
fn slugs_are_lowercase_dashed() {
    assert_eq!(slugify("My Cool API"), "my-cool-api");
    assert_eq!(slugify("  Foo__Bar!! "), "foo-bar");
    assert_eq!(slugify("a--b"), "a-b");
    assert_eq!(slugify("Ünïcode Names"), "Ünïcode-names");
}

#[test]
fn discovered_api_is_named_by_its_title() {
    let api = discovered_api("https://p.io", s("https://p.io/openapi.json"), br#"{"info": {"title": "Pet Store"}}"#);
    assert_eq!(api.name, "pet-store");
    assert_eq!(api.title, "Pet Store");
    let untitled = discovered_api("https://p.io/", s("u"), b"x");
    assert_eq!(untitled.title, "p.io");
    assert_eq!(untitled.name, "p-io");
}

#[test]
fn raise_for_status_lifts_errors() {
    assert!(matches!(raise_for_status(result(404)), Err(SpallCliError::Http4xx(404))));
    assert!(matches!(raise_for_status(result(503)), Err(SpallCliError::Http5xx(503))));
    assert_eq!(raise_for_status(result(204)).ok().unwrap().status, 204);
    assert_eq!(SpallCliError::Http4xx(404).exit_code(), 4);
    assert_eq!(SpallCliError::Http5xx(500).exit_code(), 5);
}

#[test]
fn retries_stay_within_the_attempt_budget() {
    let max = max_attempts(false, 1);
    assert_eq!(max, 2);
    assert_eq!(max_attempts(true, 5), 1);
    let ev = SendEvent::Response { status: 429, retry_after_secs: Some(2) };
    assert!(matches!(next_send_action(0, max, ev, 60), SendAction::Retry { wait_ms: 2000 }));
    let ev = SendEvent::Response { status: 429, retry_after_secs: Some(2) };
    assert!(matches!(next_send_action(1, max, ev, 60), SendAction::Return));
    let ev = SendEvent::Response { status: 503, retry_after_secs: Some(600) };
    assert!(matches!(next_send_action(0, max, ev, 60), SendAction::Return));
    let ev = SendEvent::Failure(s("refused"));
    assert!(matches!(next_send_action(0, max, ev, 60), SendAction::Retry { wait_ms: 500 }));
    let ev = SendEvent::Failure(s("refused"));
    assert!(matches!(next_send_action(1, max, ev, 60), SendAction::Fail(m) if m == "refused"));
}

#[test]
fn cookies_join_into_one_header() {
    assert_eq!(cookie_header(&vec![]), None);
    assert_eq!(cookie_header(&vec![(s("a"), s("1")), (s("b"), s("2"))]), Some(s("a=1; b=2")));
}

#[test]
fn next_links_resolve_against_the_current_url() {
    assert_eq!(resolve_next_url("https://a/x?page=1", "https://b/y").ok(), Some(s("https://b/y")));
    assert_eq!(resolve_next_url("https://a/x/list?page=1", "?page=2").ok(), Some(s("https://a/x/list?page=2")));
    match resolve_next_url("not a url", "/next") {
        Err(SpallCliError::Network(m)) => assert!(m.starts_with("Invalid current URL: ")),
        _ => panic!("expected a network error"),
    }
}

#[test]
fn retry_after_reads_seconds_and_dates() {
    assert_eq!(parse_retry_after(" 120 ", 0), Some(120));
    assert_eq!(parse_retry_after("+7", 0), Some(7));
    assert_eq!(parse_retry_after("Wed, 21 Oct 2015 07:28:00 GMT", 1_445_412_470), Some(10));
    assert_eq!(parse_retry_after("Wed, 21 Oct 2015 07:28:00 GMT", 1_445_412_490), Some(0));
    assert_eq!(parse_retry_after("soon", 0), None);
}

#[test]
fn body_from_data_flags() {
    let mut f = flags();
    f.data = Some(vec![s("{\"a\":1}"), s("@body.json")]);
    assert!(matches!(resolve_body(&f), BodyPlan::File { path, content_type } if path == "body.json" && content_type == "application/json"));
    f.data = Some(vec![s("-")]);
    f.content_type = Some(s("text/plain"));
    assert!(matches!(resolve_body(&f), BodyPlan::Stdin { content_type } if content_type == "text/plain"));
    f.data = Some(vec![s("raw")]);
    assert!(matches!(resolve_body(&f), BodyPlan::Text { text, .. } if text == "raw"));
    f.no_data = true;
    assert!(matches!(resolve_body(&f), BodyPlan::Empty));
    let mut none = flags();
    none.has_body = false;
    none.data = Some(vec![s("x")]);
    assert!(matches!(resolve_body(&none), BodyPlan::Empty));
}

#[test]
fn body_from_form_and_field_flags() {
    let mut f = flags();
    f.form = Some(vec![s("file=@img.png"), s("note=hi"), s("junk")]);
    match resolve_body(&f) {
        BodyPlan::Multipart(parts) => {
            assert_eq!(parts.len(), 2);
            assert!(matches!(&parts[0], FormPart::File { key, path } if key == "file" && path == "img.png"));
            assert!(matches!(&parts[1], FormPart::Text { key, value } if key == "note" && value == "hi"));
        }
        _ => panic!("expected multipart"),
    }
    let mut g = flags();
    g.field = Some(vec![s("grant_type=client_credentials"), s("scope=a b")]);
    assert!(matches!(resolve_body(&g), BodyPlan::Fields(e) if e == "grant_type%3Dclient_credentials%26scope%3Da%20b"));
}

fn path_param(name: &str) -> spall_cli::ir::ParamInfo {
    spall_cli::ir::ParamInfo {
        name: s(name),
        location: spall_cli::ir::ParameterLocation::Path,
        required: true,
        deprecated: false,
        style: s("simple"),
        explode: false,
        description: None,
        cli_name: None,
        schema: spall_cli::ir::SchemaInfo {
            schema_type: None,
            format: None,
            description: None,
            default: None,
            enum_values: Vec::new(),
            nullable: false,
            is_recursive: false,
            pattern: None,
            min_length: None,
            max_length: None,
            minimum: None,
            maximum: None,
            multiple_of: None,
            exclusive_minimum: false,
            exclusive_maximum: false,
            min_items: None,
            max_items: None,
            unique_items: false,
            additional_properties: true,
            properties: Vec::new(),
            items: None,
        },
    }
}

fn url_op(template: &str, params: Vec<spall_cli::ir::ParamInfo>) -> spall_cli::ir::OperationInfo {
    spall_cli::ir::OperationInfo {
        operation_id: s("op"),
        method: spall_cli::ir::HttpMethod::Get,
        path_template: s(template),
        summary: None,
        description: None,
        deprecated: false,
        parameters: params,
        request_body: None,
        tags: Vec::new(),
        mcp_auth_profile: None,
        mcp_annotations: None,
    }
}

#[test]
fn urls_join_base_and_substituted_path() {
    let op = url_op("/pets/{petId}/files/{path*}", vec![path_param("petId"), path_param("path")]);
    let args = vec![(s("path"), s("a/b")), (s("petId"), s("42"))];
    assert_eq!(
        build_url_with_path_args(&op, None, Some("https://api.example.com/v1//"), Some("https://op"), None, &args),
        "https://api.example.com/v1/pets/42/files/a/b"
    );
    let bare = url_op("items", vec![]);
    assert_eq!(build_url_with_path_args(&bare, Some("http://o/"), Some("http://e"), None, None, &vec![]), "http://o/items");
    assert_eq!(build_url_with_path_args(&bare, None, None, None, Some("http://spec"), &vec![]), "http://spec/items");
    assert_eq!(build_url_with_path_args(&bare, None, None, None, None, &vec![]), "/items");
}

#[test]
fn unbound_path_params_stay_in_the_template() {
    let op = url_op("/pets/{petId}", vec![path_param("petId")]);
    assert_eq!(build_url_with_path_args(&op, Some("http://h"), None, None, None, &vec![]), "http://h/pets/{petId}");
}
