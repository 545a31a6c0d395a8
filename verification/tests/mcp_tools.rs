use spall_cli::error::SpallCliError;
use spall_cli::mcp::tools::parse_auth_tool_flags;
use spall_cli::ir::{HttpMethod, OperationInfo, ParamInfo, ParameterLocation, SchemaInfo};
use spall_cli::json::{to_json_text, Json};
use spall_cli::mcp::args::build_programmatic_args;
use spall_cli::mcp::profiles::{validate_auth_profiles, AuthProfiles, ProfileRoute, ResolveErr};
use spall_cli::mcp::rpc::{call_result, tools_call_plan};
use spall_cli::mcp::tags::{list_tags, tag_histogram};
use spall_cli::mcp::tools::{
    build_registry, derive_annotations, sanitize_tool_name, tag_filter_admits, unique_name,
};

fn s(x: &str) -> String {
    x.to_string()
}

fn op(id: &str, tags: &[&str]) -> OperationInfo {
    OperationInfo {
        operation_id: s(id),
        method: HttpMethod::Get,
        path_template: format!("/{}", id),
        summary: None,
        description: None,
        deprecated: false,
        parameters: Vec::new(),
        request_body: None,
        tags: tags.iter().map(|t| s(t)).collect(),
        mcp_auth_profile: None,
        mcp_annotations: None,
    }
}

fn op_with_method(id: &str, m: HttpMethod) -> OperationInfo {
    let mut o = op(id, &[]);
    o.method = m;
    o
}

fn bare_schema() -> SchemaInfo {
    SchemaInfo {
        schema_type: None,
        format: None,
        description: None,
        default: None,
        enum_values: Vec::new(),
        nullable: false,
        is_recursive: false,
        pattern: None,
        min_length: None,
        max_length: None,
        minimum: None,
        maximum: None,
        multiple_of: None,
        exclusive_minimum: false,
        exclusive_maximum: false,
        min_items: None,
        max_items: None,
        unique_items: false,
        additional_properties: true,
        properties: Vec::new(),
        items: None,
    }
}

fn make_param(name: &str, loc: ParameterLocation, style: &str, explode: bool) -> ParamInfo {
    ParamInfo {
        name: s(name),
        location: loc,
        required: false,
        deprecated: false,
        style: s(style),
        explode,
        description: None,
        cli_name: None,
        schema: bare_schema(),
    }
}

fn op_with_params(params: Vec<ParamInfo>) -> OperationInfo {
    let mut o = op("x", &[]);
    o.parameters = params;
    o
}

fn num(n: i64) -> Json {
    Json::Number(n.to_string())
}

fn obj(members: Vec<(&str, Json)>) -> Json {
    Json::Object(members.into_iter().map(|(k, v)| (s(k), v)).collect())
}

fn get<'a>(m: &'a Vec<(String, String)>, k: &str) -> Option<&'a str> {
    m.iter().find(|(a, _)| a == k).map(|(_, b)| b.as_str())
}

fn member<'a>(j: &'a Json, k: &str) -> Option<&'a Json> {
    j.get(k)
}

fn is_bool(j: Option<&Json>, b: bool) -> bool {
    matches!(j, Some(Json::Bool(x)) if *x == b)
}

fn names(reg: &spall_cli::mcp::tools::ToolRegistry) -> Vec<String> {
    reg.iter().map(|(n, _)| n.clone()).collect()
}

#[test]
fn sanitize_replaces_special_chars() {
    assert_eq!(sanitize_tool_name("getPetById"), "getpetbyid");
    assert_eq!(sanitize_tool_name("create user"), "create-user");
    assert_eq!(sanitize_tool_name("Foo::Bar"), "foo-bar");
    assert_eq!(sanitize_tool_name("---trim---"), "trim");
    assert_eq!(sanitize_tool_name(""), "op");
    assert_eq!(sanitize_tool_name("ok-name_v2.1"), "ok-name_v2.1");
}

#[test]
fn sanitize_truncates_to_sixty_four() {
    let raw = "a".repeat(120);
    let san = sanitize_tool_name(&raw);
    assert!(san.len() <= 64);
}

#[test]
fn sanitize_collapses_runs_of_dashes() {
    assert_eq!(sanitize_tool_name("a--b"), "a-b");
    assert_eq!(sanitize_tool_name("a - b"), "a-b");
    assert_eq!(sanitize_tool_name("x-_-y"), "x-_-y");
    assert!(!sanitize_tool_name("List--All  Pets!!-x").contains("--"));
}

#[test]
fn sanitize_is_idempotent() {
    for raw in ["getPetById", "Foo::Bar", "a--b", "---trim---", "", "x y  z"] {
        let once = sanitize_tool_name(raw);
        assert_eq!(sanitize_tool_name(&once), once);
    }
}

#[test]
fn sanitize_cut_drops_trailing_dash() {
    let raw = format!("{}-bc", "a".repeat(63));
    assert_eq!(sanitize_tool_name(&raw), "a".repeat(63));
}

#[test]
fn unique_appends_suffix_on_collision() {
    let mut existing: Vec<String> = vec![s("foo")];
    assert_eq!(unique_name("foo", &existing), "foo-2");
    existing.push(s("foo-2"));
    assert_eq!(unique_name("foo", &existing), "foo-3");
    assert_eq!(unique_name("bar", &existing), "bar");
}

#[test]
fn tag_filter_include_admits_only_matching() {
    let op = op("list", &["taga"]);
    assert!(tag_filter_admits(&op, &vec![s("taga")], &vec![]));
    assert!(!tag_filter_admits(&op, &vec![s("tagb")], &vec![]));
}

#[test]
fn tag_filter_exclude_rejects_matching() {
    let op = op("list", &["taga"]);
    assert!(!tag_filter_admits(&op, &vec![], &vec![s("taga")]));
    assert!(tag_filter_admits(&op, &vec![], &vec![s("tagb")]));
}

#[test]
fn untagged_op_belongs_to_synthetic_default() {
    let op = op("list", &[]);
    assert!(tag_filter_admits(&op, &vec![s("default")], &vec![]));
    assert!(!tag_filter_admits(&op, &vec![s("taga")], &vec![]));
    assert!(!tag_filter_admits(&op, &vec![], &vec![s("default")]));
}

#[test]
fn unwanted_tag_wins_over_wanted_tag() {
    let op = op("list", &["taga", "tagb"]);
    assert!(!tag_filter_admits(&op, &vec![s("taga")], &vec![s("tagb")]));
}

#[test]
fn registry_preserves_spec_order_after_filter() {
    let ops = vec![op("first", &["taga"]), op("second", &["tagb"]), op("third", &["taga"])];
    let reg = build_registry(&ops, &vec![s("taga")], &vec![], None, &vec![]).0;
    assert_eq!(names(&reg), vec!["first", "third"]);
}

#[test]
fn truncate_deterministic_picks_same_subset_across_runs() {
    let mut ops = Vec::new();
    for i in 0..50 {
        ops.push(op(&format!("alpha-{}", i), &["alpha"]));
        ops.push(op(&format!("beta-{}", i), &["beta"]));
    }
    let first = build_registry(&ops, &vec![], &vec![], Some(30), &vec![]).0;
    let second = build_registry(&ops, &vec![], &vec![], Some(30), &vec![]).0;
    let names_a = names(&first);
    let names_b = names(&second);
    assert_eq!(names_a.len(), 30);
    assert_eq!(names_a, names_b, "truncation must be deterministic");
    for name in &names_a {
        assert!(name.starts_with("alpha-"), "expected alpha bucket to fill first, got {}", name);
    }
}

#[test]
fn truncate_below_cap_keeps_all_ops_in_spec_order() {
    let ops = vec![op("a", &["t1"]), op("b", &["t2"]), op("c", &["t1"])];
    let reg = build_registry(&ops, &vec![], &vec![], Some(10), &vec![]).0;
    assert_eq!(names(&reg), vec!["a", "b", "c"]);
}

#[test]
fn tag_histogram_sorts_by_count_desc_then_tag_asc() {
    let ops = vec![
        op("a", &["users"]),
        op("b", &["users"]),
        op("c", &["users"]),
        op("d", &["orgs"]),
        op("e", &["orgs"]),
        op("f", &["billing"]),
        op("g", &[]),
    ];
    let reg = build_registry(&ops, &vec![], &vec![], None, &vec![]).0;
    let hist = tag_histogram(&reg, &ops, 10);
    assert_eq!(
        hist,
        vec![(s("users"), 3), (s("orgs"), 2), (s("billing"), 1), (s("default"), 1)],
    );
}

#[test]
fn tag_histogram_caps_to_top_n() {
    let mut ops = Vec::new();
    for tag in ["t1", "t2", "t3", "t4", "t5", "t6", "t7"] {
        ops.push(op(&format!("op-{}", tag), &[tag]));
    }
    let reg = build_registry(&ops, &vec![], &vec![], None, &vec![]).0;
    let hist = tag_histogram(&reg, &ops, 3);
    assert_eq!(hist.len(), 3);
    assert_eq!(hist, vec![(s("t1"), 1), (s("t2"), 1), (s("t3"), 1)]);
}

#[test]
fn multi_tag_op_contributes_to_every_tag_bucket() {
    let ops = vec![op("a", &["users", "admin"])];
    let reg = build_registry(&ops, &vec![], &vec![], None, &vec![]).0;
    let hist = tag_histogram(&reg, &ops, 10);
    assert!(hist.contains(&(s("users"), 1)));
    assert!(hist.contains(&(s("admin"), 1)));
}

#[test]
fn list_tags_buckets_in_tag_order_with_first_sample() {
    let ops = vec![op("b1", &["beta"]), op("a1", &["alpha", "beta"]), op("n1", &[]), op("a2", &["alpha"])];
    let rows = list_tags(&ops, &vec![], &vec![]);
    let got: Vec<(String, usize, String)> =
        rows.into_iter().map(|r| (r.tag, r.count, r.sample)).collect();
    assert_eq!(
        got,
        vec![
            (s("alpha"), 2, s("a1")),
            (s("beta"), 2, s("b1")),
            (s("default"), 1, s("n1")),
        ]
    );
}

#[test]
fn list_tags_honors_the_filter() {
    let ops = vec![op("b1", &["beta"]), op("a1", &["alpha"])];
    let rows = list_tags(&ops, &vec![], &vec![s("beta")]);
    assert_eq!(rows.len(), 1);
    assert_eq!(rows[0].tag, "alpha");
}

#[test]
fn annotations_derive_from_http_method() {
    for m in [HttpMethod::Get, HttpMethod::Head, HttpMethod::Options, HttpMethod::Trace] {
        let ann = derive_annotations(&op_with_method("x", m));
        assert!(is_bool(member(&ann, "readOnlyHint"), true));
        assert!(is_bool(member(&ann, "destructiveHint"), false));
        assert!(is_bool(member(&ann, "idempotentHint"), true));
    }
    for m in [HttpMethod::Put, HttpMethod::Delete] {
        let ann = derive_annotations(&op_with_method("x", m));
        assert!(is_bool(member(&ann, "readOnlyHint"), false));
        assert!(is_bool(member(&ann, "destructiveHint"), true));
        assert!(is_bool(member(&ann, "idempotentHint"), true));
    }
    let ann = derive_annotations(&op_with_method("x", HttpMethod::Patch));
    assert!(is_bool(member(&ann, "readOnlyHint"), false));
    assert!(is_bool(member(&ann, "destructiveHint"), true));
    assert!(is_bool(member(&ann, "idempotentHint"), false));
    let ann = derive_annotations(&op_with_method("x", HttpMethod::Post));
    match ann {
        Json::Object(m) => assert!(m.is_empty()),
        _ => panic!("annotations must be an object"),
    }
}

#[test]
fn x_mcp_annotations_extension_overrides_field_by_field() {
    let mut o = op_with_method("x", HttpMethod::Get);
    o.mcp_annotations = Some(vec![(s("readOnlyHint"), Json::Bool(false)), (s("openWorldHint"), Json::Bool(true))]);
    let ann = derive_annotations(&o);
    assert!(is_bool(member(&ann, "readOnlyHint"), false));
    assert!(is_bool(member(&ann, "openWorldHint"), true));
    assert!(is_bool(member(&ann, "idempotentHint"), true));
}

#[test]
fn op_summary_auto_derives_tool_title() {
    let mut o = op_with_method("listPets", HttpMethod::Get);
    o.summary = Some(s("List pets owned by the caller"));
    let ann = derive_annotations(&o);
    assert!(matches!(member(&ann, "title"), Some(Json::Str(t)) if t == "List pets owned by the caller"));
}

#[test]
fn x_mcp_annotations_title_overrides_summary_derived() {
    let mut o = op_with_method("listPets", HttpMethod::Get);
    o.summary = Some(s("List pets owned by the caller"));
    o.mcp_annotations = Some(vec![(s("title"), Json::Str(s("Show My Pets")))]);
    let ann = derive_annotations(&o);
    assert!(matches!(member(&ann, "title"), Some(Json::Str(t)) if t == "Show My Pets"));
}

#[test]
fn absent_summary_and_no_override_omits_title_field() {
    let o = op_with_method("listPets", HttpMethod::Get);
    let ann = derive_annotations(&o);
    assert!(member(&ann, "title").is_none());
}

#[test]
fn x_mcp_auth_profile_extension_picks_up_at_build_time() {
    let mut o = op("authed", &[]);
    o.mcp_auth_profile = Some(s("admin"));
    let ops = vec![o];
    let reg = build_registry(&ops, &vec![], &vec![], None, &vec![]).0;
    let (_name, entry) = reg.iter().next().unwrap();
    assert_eq!(entry.auth_profile.as_deref(), Some("admin"));
}

#[test]
fn cli_auth_tool_flag_overrides_extension() {
    let mut o = op("authed", &[]);
    o.mcp_auth_profile = Some(s("admin"));
    let ops = vec![o];
    let flags = vec![(s("authed"), s("readonly"))];
    let (reg, unmatched) = build_registry(&ops, &vec![], &vec![], None, &flags);
    let (_name, entry) = reg.iter().next().unwrap();
    assert_eq!(entry.auth_profile.as_deref(), Some("readonly"));
    assert!(unmatched.is_empty());
}

#[test]
fn unmatched_auth_tool_key_is_reported() {
    let ops = vec![op("a", &[])];
    let flags = vec![(s("ghost-tool"), s("admin"))];
    let (_, unmatched) = build_registry(&ops, &vec![], &vec![], None, &flags);
    assert_eq!(unmatched, vec![s("ghost-tool")]);
}

#[test]
fn cli_auth_tool_matches_raw_operation_id_or_sanitized_name() {
    let ops = vec![op("GetThing", &[])];
    let by_raw = vec![(s("GetThing"), s("p"))];
    let entry_a = build_registry(&ops, &vec![], &vec![], None, &by_raw).0[0].auth_profile.clone();
    let by_sanitized = vec![(s("getthing"), s("p"))];
    let entry_b = build_registry(&ops, &vec![], &vec![], None, &by_sanitized).0[0].auth_profile.clone();
    assert_eq!(entry_a, Some(s("p")));
    assert_eq!(entry_b, Some(s("p")));
}

#[test]
fn build_args_routes_by_parameter_location() {
    let o = op_with_params(vec![
        make_param("a", ParameterLocation::Path, "form", false),
        make_param("b", ParameterLocation::Query, "form", false),
        make_param("c", ParameterLocation::Header, "form", false),
        make_param("d", ParameterLocation::Cookie, "form", false),
    ]);
    let args = obj(vec![("a", num(1)), ("b", Json::Str(s("two"))), ("c", Json::Bool(true)), ("d", Json::Str(s("cookie")))]);
    let prog = build_programmatic_args(&o, &args).expect("ok");
    assert_eq!(get(&prog.path, "a"), Some("1"));
    assert_eq!(get(&prog.query, "b"), Some("two"));
    assert_eq!(get(&prog.header, "c"), Some("true"));
    assert_eq!(get(&prog.cookie, "d"), Some("cookie"));
}

#[test]
fn build_args_rejects_unknown_argument() {
    let o = op("x", &[]);
    let args = obj(vec![("zzz", num(1))]);
    let err = build_programmatic_args(&o, &args).err().unwrap();
    assert!(err.contains("unknown argument 'zzz'"));
}

#[test]
fn array_query_with_form_explode_expands_to_repeated_pairs() {
    let o = op_with_params(vec![make_param("ids", ParameterLocation::Query, "form", true)]);
    let prog = build_programmatic_args(&o, &obj(vec![("ids", Json::Array(vec![num(1), num(2), num(3)]))])).unwrap();
    assert!(prog.query.is_empty(), "explode=true bypasses the single-value map");
    assert_eq!(
        prog.query_extras,
        vec![(s("ids"), s("1")), (s("ids"), s("2")), (s("ids"), s("3"))]
    );
}

#[test]
fn array_query_with_form_style_still_explodes_when_spec_says_false() {
    let o = op_with_params(vec![make_param("ids", ParameterLocation::Query, "form", false)]);
    let prog = build_programmatic_args(&o, &obj(vec![("ids", Json::Array(vec![Json::Str(s("a")), Json::Str(s("b"))]))])).unwrap();
    assert_eq!(prog.query_extras.len(), 2);
}

#[test]
fn array_query_with_pipe_delimited_style_comma_joins() {
    let o = op_with_params(vec![make_param("ids", ParameterLocation::Query, "pipeDelimited", false)]);
    let prog = build_programmatic_args(&o, &obj(vec![("ids", Json::Array(vec![num(1), num(2), num(3)]))])).unwrap();
    assert!(prog.query_extras.is_empty());
    assert_eq!(get(&prog.query, "ids"), Some("1,2,3"));
}

#[test]
fn array_path_param_comma_joins() {
    let o = op_with_params(vec![make_param("ids", ParameterLocation::Path, "simple", false)]);
    let prog = build_programmatic_args(&o, &obj(vec![("ids", Json::Array(vec![num(1), num(2), num(3)]))])).unwrap();
    assert_eq!(get(&prog.path, "ids"), Some("1,2,3"));
}

#[test]
fn array_header_comma_joins_per_rfc_9110() {
    let o = op_with_params(vec![make_param("X-Tags", ParameterLocation::Header, "simple", false)]);
    let prog = build_programmatic_args(
        &o,
        &obj(vec![("X-Tags", Json::Array(vec![Json::Str(s("a")), Json::Str(s("b")), Json::Str(s("c"))]))]),
    )
    .unwrap();
    assert_eq!(get(&prog.header, "X-Tags"), Some("a,b,c"));
}

#[test]
fn annotations_serialize_compactly() {
    let ann = derive_annotations(&op_with_method("x", HttpMethod::Patch));
    assert_eq!(
        to_json_text(&ann),
        "{\"readOnlyHint\":false,\"destructiveHint\":true,\"idempotentHint\":false}"
    );
}

#[test]
fn auth_tool_flags_are_read_and_checked() {
    let m = parse_auth_tool_flags(&vec![s(" b = admin "), s("a=ro"), s("b=rw")]).ok().unwrap();
    assert_eq!(m, vec![(s("a"), s("ro")), (s("b"), s("rw"))]);
    match parse_auth_tool_flags(&vec![s("noequals")]) {
        Err(SpallCliError::Usage(e)) => assert_eq!(e, "--spall-auth-tool value 'noequals' must be <tool>=<profile>"),
        _ => panic!("expected usage error"),
    }
    match parse_auth_tool_flags(&vec![s("x= ")]) {
        Err(SpallCliError::Usage(e)) => assert_eq!(e, "--spall-auth-tool value 'x= ' has empty <tool> or <profile>"),
        _ => panic!("expected usage error"),
    }
}

fn op_with_profile(id: &str, profile: Option<&str>) -> OperationInfo {
    let mut o = op(id, &[]);
    o.mcp_auth_profile = profile.map(s);
    o
}

#[test]
fn auth_profiles_all_configured_are_listed_sorted() {
    let tools = vec![(s("get-pet"), s("reader")), (s("list-pets"), s("admin"))];
    let ops = vec![op_with_profile("a", Some("reader")), op_with_profile("b", None)];
    let configured = vec![s("reader"), s("admin"), s("unused")];
    let ok = validate_auth_profiles("petstore", &tools, &ops, &configured).ok().unwrap();
    assert_eq!(ok, vec![s("admin"), s("reader")]);
    assert!(validate_auth_profiles("petstore", &Vec::new(), &Vec::new(), &Vec::new()).ok().unwrap().is_empty());
}

#[test]
fn auth_profiles_unknown_are_reported_with_sources() {
    let tools = vec![(s("get-pet"), s("zeta")), (s("list-pets"), s("admin"))];
    let ops = vec![op_with_profile("create-pet", Some("zeta")), op_with_profile("drop", Some("alpha"))];
    let configured = vec![s("reader"), s("admin")];
    match validate_auth_profiles("petstore", &tools, &ops, &configured) {
        Err(SpallCliError::Usage(m)) => assert_eq!(
            m,
            "auth profile(s) not configured for api 'petstore':\n  'alpha' (referenced from: x-mcp-auth-profile on operation 'drop')\n  'zeta' (referenced from: --spall-auth-tool get-pet=zeta; x-mcp-auth-profile on operation 'create-pet')\nconfigured profiles in this api: [\"admin\", \"reader\"]"
        ),
        _ => panic!("expected a usage error"),
    }
}

fn call_params(members: Vec<(&str, Json)>) -> Json {
    Json::Object(members.into_iter().map(|(k, v)| (s(k), v)).collect())
}

#[test]
fn tools_call_plan_routes_arguments() {
    let mut get_pet = op("get-pet", &[]);
    get_pet.parameters = vec![ParamInfo {
        name: s("id"),
        location: ParameterLocation::Path,
        required: true,
        deprecated: false,
        style: s("simple"),
        explode: false,
        description: None,
        cli_name: None,
        schema: bare_schema(),
    }];
    let ops = vec![op("list-pets", &[]), get_pet];
    let reg = build_registry(&ops, &vec![], &vec![], None, &vec![(s("get-pet"), s("reader"))]).0;
    let params = call_params(vec![
        ("name", Json::Str(s("get-pet"))),
        ("arguments", call_params(vec![("id", Json::Str(s("7")))])),
    ]);
    match tools_call_plan(&params, &reg, &ops) {
        Ok((k, args, profile)) => {
            assert_eq!(k, 1);
            assert_eq!(args.path, vec![(s("id"), s("7"))]);
            assert_eq!(profile.as_deref(), Some("reader"));
        }
        Err(_) => panic!("expected a plan"),
    }
}

#[test]
fn tools_call_plan_refusals_are_tool_errors() {
    let ops = vec![op("list-pets", &[])];
    let reg = build_registry(&ops, &vec![], &vec![], None, &vec![]).0;
    let err_text = |p: Json| match tools_call_plan(&p, &reg, &ops) {
        Err(j) => to_json_text(&j),
        Ok(_) => panic!("expected a tool error"),
    };
    assert_eq!(
        err_text(Json::Null),
        "{\"content\":[{\"type\":\"text\",\"text\":\"missing 'name' in tools/call params\"}],\"isError\":true}"
    );
    assert_eq!(
        err_text(call_params(vec![("name", Json::Str(s("nope")))])),
        "{\"content\":[{\"type\":\"text\",\"text\":\"unknown tool: nope\"}],\"isError\":true}"
    );
    assert_eq!(
        err_text(call_params(vec![("name", Json::Str(s("list-pets"))), ("arguments", Json::Bool(true))])),
        "{\"content\":[{\"type\":\"text\",\"text\":\"'arguments' must be a JSON object\"}],\"isError\":true}"
    );
}

#[test]
fn call_result_marks_http_errors() {
    assert_eq!(
        to_json_text(&call_result(404, "{}")),
        "{\"content\":[{\"type\":\"text\",\"text\":\"{}\"}],\"isError\":true}"
    );
    assert_eq!(
        to_json_text(&call_result(399, "ok")),
        "{\"content\":[{\"type\":\"text\",\"text\":\"ok\"}],\"isError\":false}"
    );
}

#[test]
fn colliding_operation_ids_get_distinct_tool_names() {
    let ops = vec![op("List Pets", &[]), op("list--pets", &[]), op("list pets", &[])];
    let reg = build_registry(&ops, &vec![], &vec![], None, &vec![]).0;
    assert_eq!(names(&reg), vec!["list-pets", "list-pets-2", "list-pets-3"]);
    let params = call_params(vec![("name", Json::Str(s("list-pets-2")))]);
    match tools_call_plan(&params, &reg, &ops) {
        Ok((k, _, profile)) => {
            assert_eq!(k, 1);
            assert!(profile.is_none());
        }
        Err(_) => panic!("expected a plan"),
    }
}

#[test]
fn auth_profiles_route_default_validated_and_cached() {
    let mut p = AuthProfiles::new(vec![s("reader"), s("admin")]);
    assert!(matches!(p.route(None), Ok(ProfileRoute::Default)));
    match p.route(Some("typo")) {
        Err(e @ ResolveErr::NotValidated { .. }) => {
            assert_eq!(e.message(), "internal: auth profile 'typo' not validated at startup")
        }
        _ => panic!("expected NotValidated"),
    }
    assert!(matches!(p.route(Some("reader")), Ok(ProfileRoute::Resolve(ref n)) if n == "reader"));
    assert!(p.record_resolution("reader", true).is_ok());
    assert!(matches!(p.route(Some("reader")), Ok(ProfileRoute::Cached(ref n)) if n == "reader"));
    assert!(p.record_resolution("reader", true).is_ok());
    assert_eq!(p.resolved, vec![s("reader")]);
    match p.record_resolution("admin", false) {
        Err(e @ ResolveErr::RegistryMiss { .. }) => {
            assert_eq!(e.message(), "auth profile 'admin' resolution failed: not found in registry")
        }
        _ => panic!("expected RegistryMiss"),
    }
    assert!(matches!(p.route(Some("admin")), Ok(ProfileRoute::Resolve(_))));
}
