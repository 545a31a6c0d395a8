use spall_cli::command::{
    build_op_cmd, build_root_layout, detect_api_help, group_by_tag, invoked_operation, LightOp,
    LightParam,
};
use spall_cli::error::SpallCliError;
use spall_cli::ir::{HttpMethod, OperationInfo};
use spall_cli::ir::ParameterLocation;

fn s(x: &str) -> String {
    x.to_string()
}

fn light_param(name: &str, location: ParameterLocation) -> LightParam {
    LightParam { name: s(name), cli_name: None, hidden: false, location, required: false, description: None }
}

fn make_op(id: &str, tags: Vec<&str>) -> LightOp {
    LightOp {
        operation_id: s(id),
        cli_name: None,
        hidden: false,
        group: None,
        summary: None,
        deprecated: false,
        tags: tags.into_iter().map(|t| s(t)).collect(),
        params: Vec::new(),
        has_body: false,
        body_required: false,
    }
}

fn root_names(ops: &Vec<LightOp>, idx: &Vec<usize>) -> Vec<String> {
    idx.iter().map(|i| ops[*i].operation_id.clone()).collect()
}

#[test]
fn op_cmd_accepts_dash_prefixed_path_and_query_values() {
    let mut op = make_op("update-thing", vec![]);
    op.params = vec![light_param("id", ParameterLocation::Path), light_param("offset", ParameterLocation::Query)];
    let cmd = build_op_cmd(&op);
    assert_eq!(cmd.name, "update-thing");
    assert_eq!(cmd.args.len(), 2);
    assert_eq!(cmd.args[0].id, "path-id");
    assert!(cmd.args[0].long.is_none());
    assert_eq!(cmd.args[0].value_name, Some(s("id")));
    assert_eq!(cmd.args[1].id, "query-offset");
    assert_eq!(cmd.args[1].long, Some(s("offset")));
    assert!(cmd.args[0].allow_hyphen_values);
    assert!(cmd.args[1].allow_hyphen_values);
}

#[test]
fn op_cmd_accepts_dash_prefixed_data_body() {
    let mut op = make_op("create-thing", vec![]);
    op.has_body = true;
    let cmd = build_op_cmd(&op);
    assert_eq!(cmd.body, Some(false));
}

#[test]
fn single_tag_flattened_to_root() {
    let ops = vec![make_op("list-pets", vec!["pets"]), make_op("get-pet", vec!["pets"])];
    let layout = build_root_layout("Pets", "1.0", &ops);
    assert_eq!(root_names(&ops, &layout.root_ops), vec!["list-pets", "get-pet"]);
    assert!(layout.groups.is_empty());
    assert_eq!(layout.about, "Pets API (1.0)");
}

#[test]
fn multi_tag_grouping() {
    let ops = vec![make_op("list-pets", vec!["pets"]), make_op("get-user", vec!["users"])];
    let layout = build_root_layout("api", "0", &ops);
    let groups: Vec<String> = layout.groups.iter().map(|(t, _)| t.clone()).collect();
    assert_eq!(groups, vec!["pets", "users"]);
    assert_eq!(root_names(&ops, &layout.root_ops), vec!["list-pets", "get-user"]);
}

#[test]
fn path_arg_ids() {
    let mut op = make_op("get-pet", vec!["pets"]);
    let mut p = light_param("petId", ParameterLocation::Path);
    p.required = true;
    op.params.push(p);
    let cmd = build_op_cmd(&op);
    assert!(cmd.args.iter().any(|a| a.id == "path-petId" && a.required));
}

#[test]
fn query_flag_ids() {
    let mut op = make_op("list-pets", vec!["pets"]);
    op.params.push(light_param("limit", ParameterLocation::Query));
    let cmd = build_op_cmd(&op);
    assert!(cmd.args.iter().any(|a| a.id == "query-limit" && a.long == Some(s("limit"))));
}

#[test]
fn header_flag_ids() {
    let mut op = make_op("list-pets", vec!["pets"]);
    op.params.push(light_param("X-Api-Key", ParameterLocation::Header));
    let cmd = build_op_cmd(&op);
    assert!(cmd.args.iter().any(|a| a.id == "header-X-Api-Key" && a.long == Some(s("header-x-api-key"))));
}

#[test]
fn cookie_flags_are_kebab_cased_and_cli_name_wins() {
    let mut op = make_op("x", vec![]);
    let mut p = light_param("session_id", ParameterLocation::Cookie);
    p.description = Some(s("the session"));
    op.params.push(p);
    let mut q = light_param("q", ParameterLocation::Query);
    q.cli_name = Some(s("search"));
    op.params.push(q);
    let mut hidden = light_param("secret", ParameterLocation::Query);
    hidden.hidden = true;
    op.params.push(hidden);
    let cmd = build_op_cmd(&op);
    assert_eq!(cmd.args.len(), 2);
    assert_eq!(cmd.args[0].long, Some(s("cookie-session-id")));
    assert_eq!(cmd.args[0].help, "the session");
    assert_eq!(cmd.args[1].id, "query-q");
    assert_eq!(cmd.args[1].long, Some(s("search")));
}

#[test]
fn body_args_mutually_exclusive() {
    let mut op = make_op("create-pet", vec!["pets"]);
    op.has_body = true;
    op.body_required = true;
    let cmd = build_op_cmd(&op);
    assert_eq!(cmd.body, Some(true));
    let plain = build_op_cmd(&make_op("list", vec![]));
    assert_eq!(plain.body, None);
}

#[test]
fn index_based_builder_produces_same_structure() {
    let mut op = make_op("list", vec!["things"]);
    op.summary = Some(s("List things"));
    op.params.push(light_param("q", ParameterLocation::Query));
    let ops = vec![op];
    let layout = build_root_layout("IdxAPI", "1.0.0", &ops);
    assert_eq!(layout.root_ops, vec![0]);
    let cmd = build_op_cmd(&ops[0]);
    assert_eq!(cmd.about, "List things");
    assert!(cmd.args.iter().any(|a| a.id == "query-q"));
}

#[test]
fn groups_follow_first_appearance_and_skip_hidden() {
    let mut hidden = make_op("h", vec!["zeta"]);
    hidden.hidden = true;
    let mut grouped = make_op("g", vec!["pets"]);
    grouped.group = Some(s("admin"));
    let ops = vec![make_op("a", vec!["pets"]), hidden, make_op("b", vec![]), grouped, make_op("c", vec!["pets"])];
    let groups = group_by_tag(&ops);
    assert_eq!(
        groups,
        vec![(s("pets"), vec![0, 4]), (s("default"), vec![2]), (s("admin"), vec![3])]
    );
}

#[test]
fn root_keeps_first_of_each_display_name() {
    let mut dup = make_op("other", vec!["users"]);
    dup.cli_name = Some(s("list"));
    let ops = vec![make_op("list", vec!["pets"]), dup];
    let layout = build_root_layout("t", "v", &ops);
    assert_eq!(layout.root_ops, vec![0]);
    assert_eq!(layout.groups.len(), 2);
}

fn full_op(id: &str) -> OperationInfo {
    OperationInfo {
        operation_id: s(id),
        method: HttpMethod::Get,
        path_template: format!("/{}", id),
        summary: None,
        description: None,
        deprecated: false,
        parameters: Vec::new(),
        request_body: None,
        tags: Vec::new(),
        mcp_auth_profile: None,
        mcp_annotations: None,
    }
}

#[test]
fn api_help_is_detected_for_registered_api() {
    let apis = vec![s("petstore"), s("github")];
    let args = |v: &[&str]| v.iter().map(|x| s(x)).collect::<Vec<String>>();
    assert_eq!(detect_api_help(&apis, &args(&["spall", "github", "--help"])), Some(s("github")));
    assert_eq!(detect_api_help(&apis, &args(&["spall", "petstore", "-h", "x"])), Some(s("petstore")));
    assert_eq!(detect_api_help(&apis, &args(&["spall", "other", "--help"])), None);
    assert_eq!(detect_api_help(&apis, &args(&["spall", "github", "list"])), None);
    assert_eq!(detect_api_help(&apis, &args(&["spall", "github"])), None);
}

#[test]
fn invoked_operation_direct_or_under_tag() {
    let ops = vec![full_op("list-pets"), full_op("get-pet")];
    assert_eq!(invoked_operation(&ops, "get-pet", None).ok(), Some(1));
    assert_eq!(invoked_operation(&ops, "pets", Some("list-pets")).ok(), Some(0));
    match invoked_operation(&ops, "pets", Some("nope")) {
        Err(SpallCliError::Usage(m)) => assert_eq!(m, "Unknown operation: nope"),
        _ => panic!("expected a usage error"),
    }
    match invoked_operation(&ops, "pets", None) {
        Err(SpallCliError::Usage(m)) => assert_eq!(m, "No operation specified. Use --help to list operations."),
        _ => panic!("expected a usage error"),
    }
}
