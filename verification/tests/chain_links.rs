use spall_cli::chain::{jmespath_numbers_fit, ChainExpr};
use spall_cli::error::SpallCliError;
use spall_cli::execute::{follow_plan, FollowPlan};
use spall_cli::filter::filter_response;
use spall_cli::ir::{HttpMethod, OperationInfo, ParamInfo, ParameterLocation, SchemaInfo};
use spall_cli::json::{to_json_text, Json};
use spall_cli::links::{parse_rfc5988, Links};
use spall_cli::paginate::{parse_link_header, PageStep, Paginator};

fn s(x: &str) -> String {
    x.to_string()
}

fn num(n: i64) -> Json {
    Json::Number(n.to_string())
}

fn st(x: &str) -> Json {
    Json::Str(s(x))
}

fn obj(members: Vec<(&str, Json)>) -> Json {
    Json::Object(members.into_iter().map(|(k, v)| (s(k), v)).collect())
}

fn bare_schema() -> SchemaInfo {
    SchemaInfo {
        schema_type: Some(s("string")),
        format: None,
        description: None,
        default: None,
        enum_values: Vec::new(),
        nullable: false,
        is_recursive: false,
        pattern: None,
        min_length: None,
        max_length: None,
        minimum: None,
        maximum: None,
        multiple_of: None,
        exclusive_minimum: false,
        exclusive_maximum: false,
        min_items: None,
        max_items: None,
        unique_items: false,
        additional_properties: true,
        properties: Vec::new(),
        items: None,
    }
}

fn param(name: &str, location: ParameterLocation) -> ParamInfo {
    ParamInfo {
        name: s(name),
        location,
        required: false,
        deprecated: false,
        style: s("form"),
        explode: false,
        description: None,
        cli_name: None,
        schema: bare_schema(),
    }
}

fn op(op_id: &str, params: Vec<ParamInfo>) -> OperationInfo {
    OperationInfo {
        operation_id: s(op_id),
        method: HttpMethod::Get,
        path_template: s("/x"),
        summary: None,
        description: None,
        deprecated: false,
        parameters: params,
        request_body: None,
        tags: Vec::new(),
        mcp_auth_profile: None,
        mcp_annotations: None,
    }
}

#[test]
fn parse_simple() {
    let c = ChainExpr::parse("op2 --id $.id").ok().unwrap();
    assert_eq!(c.target_op_id, "op2");
    assert_eq!(c.bindings, vec![(s("id"), s("$.id"))]);
}

#[test]
fn parse_multiple_bindings() {
    let c = ChainExpr::parse("op3 --a $.a --b $.b").ok().unwrap();
    assert_eq!(c.target_op_id, "op3");
    assert_eq!(c.bindings, vec![(s("a"), s("$.a")), (s("b"), s("$.b"))]);
}

#[test]
fn parse_missing_jmespath() {
    let err = ChainExpr::parse("op2 --id").err().unwrap();
    assert!(matches!(err, SpallCliError::Usage(_)));
}

#[test]
fn parse_empty() {
    let err = ChainExpr::parse("").err().unwrap();
    assert!(matches!(err, SpallCliError::Usage(_)));
}

#[test]
fn parse_errors_name_the_parameter() {
    match ChainExpr::parse("op2 --id") {
        Err(SpallCliError::Usage(m)) => assert_eq!(m, "chain param 'id' needs a jmespath expression"),
        _ => panic!("expected a usage error"),
    }
}

#[test]
fn resolve_path_param_is_positional() {
    let c = ChainExpr::parse("update-thing --id id").ok().unwrap();
    let target = op("update-thing", vec![param("id", ParameterLocation::Path)]);
    let args = c.resolve(&obj(vec![("id", st("42"))]), &target).ok().unwrap();
    assert_eq!(args, vec!["update-thing", "42"]);
}

#[test]
fn resolve_query_param_is_long_flag() {
    let c = ChainExpr::parse("op2 --q q").ok().unwrap();
    let target = op("op2", vec![param("q", ParameterLocation::Query)]);
    let args = c.resolve(&obj(vec![("q", st("x"))]), &target).ok().unwrap();
    assert_eq!(args, vec!["op2", "--q", "x"]);
}

#[test]
fn resolve_header_param_is_kebab_flag() {
    let c = ChainExpr::parse("op2 --X_Trace_Id tid").ok().unwrap();
    let target = op("op2", vec![param("X_Trace_Id", ParameterLocation::Header)]);
    let args = c.resolve(&obj(vec![("tid", st("abc"))]), &target).ok().unwrap();
    assert_eq!(args, vec!["op2", "--header-x-trace-id", "abc"]);
}

#[test]
fn resolve_path_then_query_ordering() {
    let c = ChainExpr::parse("op2 --limit limit --id id").ok().unwrap();
    let target = op(
        "op2",
        vec![param("id", ParameterLocation::Path), param("limit", ParameterLocation::Query)],
    );
    let args = c.resolve(&obj(vec![("id", st("7")), ("limit", st("5"))]), &target).ok().unwrap();
    assert_eq!(args, vec!["op2", "7", "--limit", "5"]);
}

#[test]
fn resolve_dash_prefixed_value() {
    let c = ChainExpr::parse("op2 --offset offset").ok().unwrap();
    let target = op("op2", vec![param("offset", ParameterLocation::Query)]);
    let args = c.resolve(&obj(vec![("offset", num(-5))]), &target).ok().unwrap();
    assert_eq!(args, vec!["op2", "--offset", "-5"]);
}

#[test]
fn resolve_number_to_string() {
    let c = ChainExpr::parse("op2 --n n").ok().unwrap();
    let target = op("op2", vec![param("n", ParameterLocation::Query)]);
    let args = c.resolve(&obj(vec![("n", num(7))]), &target).ok().unwrap();
    assert_eq!(args, vec!["op2", "--n", "7"]);
}

#[test]
fn resolve_nested_jmespath() {
    let c = ChainExpr::parse("op2 --name data.name").ok().unwrap();
    let target = op("op2", vec![param("name", ParameterLocation::Query)]);
    let args = c.resolve(&obj(vec![("data", obj(vec![("name", st("x"))]))]), &target).ok().unwrap();
    assert_eq!(args, vec!["op2", "--name", "x"]);
}

#[test]
fn resolve_unknown_key_errors() {
    let c = ChainExpr::parse("op2 --bogus id").ok().unwrap();
    let target = op("op2", vec![param("id", ParameterLocation::Path)]);
    let err = c.resolve(&obj(vec![("id", st("1"))]), &target).err().unwrap();
    assert!(matches!(err, SpallCliError::Usage(_)));
}

#[test]
fn resolve_invalid_expr() {
    let c = ChainExpr::parse("op2 --id bad[expr").ok().unwrap();
    let target = op("op2", vec![param("id", ParameterLocation::Path)]);
    let err = c.resolve(&obj(vec![]), &target).err().unwrap();
    assert!(matches!(err, SpallCliError::Usage(_)));
}

#[test]
fn rfc5988_parses_github_style_link_header() {
    let l = parse_rfc5988(
        r#"<https://api.github.com/x?page=2>; rel="next", <https://api.github.com/x?page=5>; rel="last""#,
    );
    assert_eq!(l.len(), 2);
    assert_eq!(l[0], (s("next"), s("https://api.github.com/x?page=2")));
    assert_eq!(l[1].0, "last");
}

#[test]
fn from_response_picks_up_link_header_only() {
    let links = Links::from_response(Some(r#"<https://api/x?p=2>; rel="next""#), None);
    assert_eq!(links.rel("next").unwrap().href, "https://api/x?p=2");
    assert!(links.rel("prev").is_none());
}

#[test]
fn hal_links_object_form() {
    let body = obj(vec![
        ("_links", obj(vec![("self", obj(vec![("href", st("/users/1"))])), ("next", obj(vec![("href", st("/users?page=2"))]))])),
        ("name", st("alice")),
    ]);
    let links = Links::from_response(None, Some(&body));
    assert_eq!(links.rel("self").unwrap().href, "/users/1");
    assert_eq!(links.rel("next").unwrap().href, "/users?page=2");
}

#[test]
fn hal_links_array_form() {
    let body = obj(vec![(
        "_links",
        obj(vec![("item", Json::Array(vec![obj(vec![("href", st("/items/1"))]), obj(vec![("href", st("/items/2"))])]))]),
    )]);
    let links = Links::from_response(None, Some(&body));
    assert_eq!(links.rel("item").unwrap().href, "/items/1");
    assert_eq!(links.len(), 2);
}

#[test]
fn jsonapi_links_string_and_object_forms() {
    let body = obj(vec![
        ("data", Json::Array(vec![])),
        ("links", obj(vec![("self", st("/articles")), ("next", obj(vec![("href", st("/articles?page[number]=2"))]))])),
    ]);
    let links = Links::from_response(None, Some(&body));
    assert_eq!(links.rel("self").unwrap().href, "/articles");
    assert_eq!(links.rel("next").unwrap().href, "/articles?page[number]=2");
}

#[test]
fn siren_links_array_form_with_multiple_rels() {
    let body = obj(vec![
        ("class", Json::Array(vec![st("order")])),
        (
            "links",
            Json::Array(vec![
                obj(vec![("rel", Json::Array(vec![st("self")])), ("href", st("/orders/1"))]),
                obj(vec![("rel", Json::Array(vec![st("next"), st("fwd")])), ("href", st("/orders/2"))]),
            ]),
        ),
    ]);
    let links = Links::from_response(None, Some(&body));
    assert_eq!(links.rel("self").unwrap().href, "/orders/1");
    assert_eq!(links.rel("next").unwrap().href, "/orders/2");
    assert_eq!(links.rel("fwd").unwrap().href, "/orders/2");
}

#[test]
fn header_and_body_links_coexist() {
    let body = obj(vec![("_links", obj(vec![("self", obj(vec![("href", st("/x"))]))]))]);
    let links = Links::from_response(Some(r#"<https://api/x?p=2>; rel="next""#), Some(&body));
    assert_eq!(links.rel("next").unwrap().href, "https://api/x?p=2");
    assert_eq!(links.rel("self").unwrap().href, "/x");
}

#[test]
fn empty_when_nothing_present() {
    let links = Links::from_response(None, Some(&obj(vec![("data", num(1))])));
    assert!(links.is_empty());
    assert_eq!(links.len(), 0);
}

#[test]
fn rels_lists_each_relation_once_in_order() {
    let links = Links::from_response(
        Some(r#"<https://a/2>; rel="next", <https://a/1>; rel="prev", <https://a/3>; rel="next""#),
        None,
    );
    assert_eq!(links.rels(), vec![s("next"), s("prev")]);
    assert_eq!(links.rel("next").unwrap().href, "https://a/2");
}

#[test]
fn parse_github_link_header() {
    let link = r#"<https://api.github.com/repos?per_page=100&page=2>; rel="next", <https://api.github.com/repos?per_page=100&page=5>; rel="last""#;
    let parsed = parse_link_header(link);
    assert_eq!(parsed.len(), 2);
    assert_eq!(parsed[0].0, "next");
    assert_eq!(parsed[0].1, "https://api.github.com/repos?per_page=100&page=2");
    assert_eq!(parsed[1].0, "last");
}

#[test]
fn no_next_url() {
    let link = r#"<https://api.github.com/repos?per_page=100&page=1>; rel="first", <https://api.github.com/repos?per_page=100&page=5>; rel="last""#;
    let paginator = Paginator::default();
    assert!(paginator.next_url(Some(link)).is_none());
    assert!(paginator.next_url(None).is_none());
}

#[test]
fn next_url_found() {
    let paginator = Paginator::default();
    assert_eq!(paginator.max_pages, 100);
    assert_eq!(
        paginator.next_url(Some(r#"<https://a/x?page=2>; rel="next""#)),
        Some(s("https://a/x?page=2"))
    );
}

#[test]
fn concat_arrays_flattens() {
    let paginator = Paginator::default();
    let pages = vec![Json::Array(vec![num(1), num(2)]), Json::Array(vec![num(3), num(4)])];
    let result = paginator.concat_results(pages);
    assert_eq!(to_json_text(&result), "[1,2,3,4]");
}

#[test]
fn concat_mixed_wraps_non_array() {
    let paginator = Paginator::default();
    let pages = vec![Json::Array(vec![num(1), num(2)]), obj(vec![("meta", Json::Bool(true))])];
    let result = paginator.concat_results(pages);
    assert_eq!(to_json_text(&result), "[1,2,{\"meta\":true}]");
}

#[test]
fn simple_selector() {
    let value = obj(vec![("name", st("test")), ("count", num(42))]);
    let result = filter_response("name", &value).unwrap();
    assert_eq!(result, "\"test\"");
}

#[test]
fn array_projection() {
    let value = Json::Array(vec![obj(vec![("name", st("a"))]), obj(vec![("name", st("b"))])]);
    let result = filter_response("[].name", &value).unwrap();
    assert_eq!(result, "[\"a\",\"b\"]");
}

#[test]
fn invalid_expr_warns() {
    let value = obj(vec![("x", num(1))]);
    assert!(filter_response("@invalid!", &value).is_err());
}

#[test]
fn nested_selector_gives_json_text() {
    let v = obj(vec![("a", obj(vec![("b", num(42))]))]);
    assert_eq!(filter_response("a.b", &v).unwrap(), "42");
}

#[test]
fn string_filter_result_is_json_quoted() {
    let v = obj(vec![("name", st("rex"))]);
    assert_eq!(filter_response("name", &v).unwrap(), "\"rex\"");
}

#[test]
fn paging_follows_next_within_budget() {
    let p = Paginator { max_pages: 3 };
    let link = "<https://api.test/items?page=2>; rel=\"next\"";
    match p.after_page(0, "https://api.test/items?page=1", 200, Some(link)) {
        Ok(PageStep::Next(u)) => assert_eq!(u, "https://api.test/items?page=2"),
        _ => panic!("expected the next page"),
    }
    assert!(matches!(p.after_page(2, "https://api.test/items?page=3", 200, Some(link)), Ok(PageStep::Done)));
}

#[test]
fn paging_resolves_relative_next_and_stops_without_link() {
    let p = Paginator { max_pages: 100 };
    match p.after_page(0, "https://api.test/v1/items?page=1", 200, Some("</v1/items?page=2>; rel=\"next\"")) {
        Ok(PageStep::Next(u)) => assert_eq!(u, "https://api.test/v1/items?page=2"),
        _ => panic!("expected the next page"),
    }
    assert!(matches!(p.after_page(0, "https://api.test/v1/items", 200, None), Ok(PageStep::Done)));
    assert!(matches!(
        p.after_page(0, "https://api.test/v1/items", 200, Some("<https://x.test/a>; rel=\"prev\"")),
        Ok(PageStep::Done)
    ));
}

#[test]
fn paging_fails_on_error_status() {
    let p = Paginator { max_pages: 100 };
    let link = "<https://api.test/items?page=2>; rel=\"next\"";
    assert!(matches!(p.after_page(1, "https://api.test/items", 404, Some(link)), Ok(PageStep::Fail)));
    assert!(matches!(p.after_page(1, "https://api.test/items", 199, None), Ok(PageStep::Fail)));
    match p.after_page(0, "not a url", 200, Some("<rel/x>; rel=\"next\"")) {
        Err(SpallCliError::Network(m)) => assert!(m.starts_with("Invalid current URL: ")),
        _ => panic!("expected a network error"),
    }
}

#[test]
fn follow_uses_link_header_then_hal() {
    let hal = obj(vec![("_links", obj(vec![("next", obj(vec![("href", st("/p/2"))]))]))]);
    match follow_plan(200, Some("next"), "https://api.test/p/1", None, &hal) {
        Ok(FollowPlan::Follow(u)) => assert_eq!(u, "https://api.test/p/2"),
        _ => panic!("expected a follow"),
    }
    let header = "<https://other.test/x>; rel=\"next\"";
    match follow_plan(200, Some("next"), "https://api.test/p/1", Some(header), &hal) {
        Ok(FollowPlan::Follow(u)) => assert_eq!(u, "https://other.test/x"),
        _ => panic!("expected a follow"),
    }
}

#[test]
fn follow_only_from_success_and_when_asked() {
    let hal = obj(vec![("_links", obj(vec![("next", obj(vec![("href", st("/p/2"))]))]))]);
    assert!(matches!(follow_plan(404, Some("next"), "https://api.test/p/1", None, &hal), Ok(FollowPlan::Stay)));
    assert!(matches!(follow_plan(200, None, "https://api.test/p/1", None, &hal), Ok(FollowPlan::Stay)));
    assert!(matches!(follow_plan(200, Some("prev"), "https://api.test/p/1", None, &hal), Ok(FollowPlan::Missing)));
    assert!(matches!(follow_plan(200, Some("next"), "https://api.test/p/1", None, &st("text")), Ok(FollowPlan::Missing)));
}

#[test]
fn parse_gives_back_the_formatted_bindings() {
    let bindings = vec![(s("id"), s("$.id")), (s("x-req"), s("data.items[0]")), (s("name"), s("a.b"))];
    let mut text = s("fetch-thing");
    for (k, v) in &bindings {
        text = format!("{} --{} {}", text, k, v);
    }
    let c = ChainExpr::parse(&text).ok().unwrap();
    assert_eq!(c.target_op_id, "fetch-thing");
    assert_eq!(c.bindings, bindings);
}

#[test]
fn number_literals_beyond_i32_are_detected() {
    assert!(jmespath_numbers_fit("foo[1]"));
    assert!(jmespath_numbers_fit("foo[2147483647]"));
    assert!(jmespath_numbers_fit("foo[-2147483647]"));
    assert!(!jmespath_numbers_fit("foo[2147483648]"));
    assert!(!jmespath_numbers_fit("foo[99999999999]"));
    assert!(!jmespath_numbers_fit("foo[-2147483648]"));
    assert!(!jmespath_numbers_fit("foo[0:99999999999]"));
    assert!(!jmespath_numbers_fit("a[?b >= `1`] | [99999999999]"));
    assert!(!jmespath_numbers_fit("foo[-\u{0661}]"));
    assert!(jmespath_numbers_fit("a99999999999"));
    assert!(jmespath_numbers_fit("'99999999999'"));
    assert!(jmespath_numbers_fit("\"99999999999\".x"));
    assert!(jmespath_numbers_fit("`99999999999`"));
    assert!(jmespath_numbers_fit("foo = 99999999999"));
    assert!(jmespath_numbers_fit("foo[-0]"));
    assert!(jmespath_numbers_fit(""));
}

#[test]
fn large_slice_steps_are_refused() {
    assert!(jmespath_numbers_fit("foo[1:5:1073741824]"));
    assert!(!jmespath_numbers_fit("foo[1:5:1073741825]"));
    assert!(!jmespath_numbers_fit("foo[ 1 : : 2147483647 ]"));
    assert!(jmespath_numbers_fit("foo[::-2147483647]"));
    assert!(jmespath_numbers_fit("foo[2147483647:2147483647]"));
    assert!(jmespath_numbers_fit("{a: foo[0], b: `2147483647`}"));
    assert!(jmespath_numbers_fit("foo[0].bar[1:2].baz[2147483647]"));
    assert!(!jmespath_numbers_fit("a[?x > `1`].b[:1:2000000000]"));
}

#[test]
fn resolve_refuses_an_out_of_range_index() {
    let c = ChainExpr::parse("op2 --id foo[99999999999]").ok().unwrap();
    let target = op("op2", vec![param("id", ParameterLocation::Path)]);
    match c.resolve(&obj(vec![("foo", Json::Array(vec![num(1)]))]), &target) {
        Err(SpallCliError::Usage(m)) => assert_eq!(
            m,
            "chain jmespath compile error for 'foo[99999999999]': number literal out of range"
        ),
        _ => panic!("expected a usage error"),
    }
}

#[test]
fn filter_refuses_an_out_of_range_index() {
    let value = obj(vec![("foo", Json::Array(vec![num(1)]))]);
    assert_eq!(
        filter_response("foo[99999999999]", &value).err().unwrap(),
        "number literal out of range"
    );
    assert_eq!(filter_response("foo[0]", &value).unwrap(), "1");
    assert_eq!(
        filter_response("foo[1::2147483647]", &value).err().unwrap(),
        "number literal out of range"
    );
    assert_eq!(filter_response("foo[::2]", &value).unwrap(), "[1]");
}
