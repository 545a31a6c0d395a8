use spall_cli::ir::{HttpMethod, OperationInfo, ParamInfo, ParameterLocation, SchemaInfo};
use spall_cli::json::Json;
use spall_cli::repl::{
    chain_stage_args, parse_chain_stage, pipe_stage0, read_line, stage0_from_words, PipeError,
    ReplInput,
};

fn s(x: &str) -> String {
    x.to_string()
}

fn strings(v: &[&str]) -> Vec<String> {
    v.iter().map(|x| s(x)).collect()
}

fn bare_schema() -> SchemaInfo {
    SchemaInfo {
        schema_type: Some(s("string")),
        format: None,
        description: None,
        default: None,
        enum_values: Vec::new(),
        nullable: false,
        is_recursive: false,
        pattern: None,
        min_length: None,
        max_length: None,
        minimum: None,
        maximum: None,
        multiple_of: None,
        exclusive_minimum: false,
        exclusive_maximum: false,
        min_items: None,
        max_items: None,
        unique_items: false,
        additional_properties: true,
        properties: Vec::new(),
        items: None,
    }
}

fn param(name: &str, location: ParameterLocation) -> ParamInfo {
    ParamInfo {
        name: s(name),
        location,
        required: false,
        deprecated: false,
        style: s("form"),
        explode: false,
        description: None,
        cli_name: None,
        schema: bare_schema(),
    }
}

fn op(op_id: &str, params: Vec<ParamInfo>) -> OperationInfo {
    OperationInfo {
        operation_id: s(op_id),
        method: HttpMethod::Get,
        path_template: s("/x"),
        summary: None,
        description: None,
        deprecated: false,
        parameters: params,
        request_body: None,
        tags: Vec::new(),
        mcp_auth_profile: None,
        mcp_annotations: None,
    }
}

fn response() -> Json {
    Json::Object(vec![(s("id"), Json::Str(s("42"))), (s("q"), Json::Str(s("x")))])
}

#[test]
fn repl_reads_shell_words() {
    assert!(matches!(read_line("   "), ReplInput::Blank));
    assert!(matches!(read_line(" quit "), ReplInput::Quit));
    assert!(matches!(read_line("exit"), ReplInput::Quit));
    assert!(matches!(read_line("help"), ReplInput::Help));
    assert!(matches!(read_line("history"), ReplInput::History));
    assert!(matches!(read_line("repl"), ReplInput::AlreadyInRepl));
    assert!(matches!(read_line("petstore 'get pet"), ReplInput::UnmatchedQuote));
    match read_line("''") {
        ReplInput::Command(words) => assert_eq!(words, strings(&["spall", ""])),
        _ => panic!("a quoted empty word is a word"),
    }
    match read_line("petstore get-pet --name 'Rex the dog'") {
        ReplInput::Command(words) => {
            assert_eq!(words, strings(&["spall", "petstore", "get-pet", "--name", "Rex the dog"]))
        }
        _ => panic!("expected a command"),
    }
}

#[test]
fn repl_line_with_bar_is_a_pipe() {
    match read_line(" petstore list-pets | get-pet --id [0].id |  ") {
        ReplInput::Pipe(stages) => assert_eq!(stages, strings(&["petstore list-pets", "get-pet --id [0].id", ""])),
        _ => panic!("expected a pipe"),
    }
}

#[test]
fn pipe_needs_two_stages() {
    match pipe_stage0(&strings(&["petstore list-pets"])) {
        Err(PipeError::Parse { stage, expr, reason }) => {
            assert_eq!(stage, 0);
            assert_eq!(expr, "petstore list-pets");
            assert_eq!(reason, "pipe requires at least two stages");
        }
        _ => panic!("expected a parse error"),
    }
    assert_eq!(
        pipe_stage0(&strings(&["petstore list-pets --limit 2", "x"])).ok(),
        Some(strings(&["spall", "petstore", "list-pets", "--limit", "2"]))
    );
}

#[test]
fn pipe_stage0_refuses_open_quote_and_empty() {
    match stage0_from_words("'a", None) {
        Err(e) => assert_eq!(
            e.message(),
            "Pipe failed at stage 0: parse error\n  Expression: 'a\n  Reason:     unmatched quote in pipe stage 0\n  To debug:   spall chain validate ''a'"
        ),
        _ => panic!("expected an error"),
    }
    match stage0_from_words("", Some(Vec::new())) {
        Err(PipeError::Parse { reason, .. }) => assert_eq!(reason, "empty pipe stage 0"),
        _ => panic!("expected an error"),
    }
}

#[test]
fn chain_stage_without_response_fails() {
    match parse_chain_stage(2, "get-pet --id id", None) {
        Err(e) => {
            assert!(matches!(e, PipeError::NoPreviousResponse { stage: 2 }));
            assert_eq!(
                e.message(),
                "Pipe failed at stage 2: no response from previous stage to feed into next stage\n  To debug:   ensure stage 1 succeeded and returned JSON"
            );
        }
        _ => panic!("expected an error"),
    }
}

#[test]
fn chain_stage_builds_next_command_line() {
    let (chain, resp) = parse_chain_stage(1, "get-pet --id id --q q", Some(response())).ok().unwrap();
    let ops = vec![
        op("list-pets", vec![]),
        op("get-pet", vec![param("q", ParameterLocation::Query), param("id", ParameterLocation::Path)]),
    ];
    let line = chain_stage_args(1, "get-pet --id id --q q", "petstore", &chain, &resp, &ops).ok().unwrap();
    assert_eq!(line, strings(&["spall", "petstore", "get-pet", "42", "--q", "x"]));
}

#[test]
fn chain_stage_target_must_belong_to_api() {
    let (chain, resp) = parse_chain_stage(1, "delete-all --id id", Some(response())).ok().unwrap();
    let ops = vec![op("list-pets", vec![])];
    match chain_stage_args(1, "delete-all --id id", "petstore", &chain, &resp, &ops) {
        Err(e) => {
            assert!(matches!(&e, PipeError::UnknownTarget { stage: 1, .. }));
            assert_eq!(
                e.message(),
                "Pipe failed at stage 1: chain target 'delete-all' is not an operation of API 'petstore'\n  Reason:     chaining stays within a single API; to chain across APIs run them as separate pipes\n  To debug:   spall petstore --help"
            );
        }
        _ => panic!("expected an error"),
    }
}

#[test]
fn chain_stage_unknown_binding_is_reported() {
    let (chain, resp) = parse_chain_stage(3, "get-pet --nope id", Some(response())).ok().unwrap();
    let ops = vec![op("get-pet", vec![param("id", ParameterLocation::Path)])];
    match chain_stage_args(3, "get-pet --nope id", "petstore", &chain, &resp, &ops) {
        Err(PipeError::JmesPath { stage, expr, reason }) => {
            assert_eq!(stage, 3);
            assert_eq!(expr, "get-pet --nope id");
            assert_eq!(reason, "Usage error: chain target operation 'get-pet' has no parameter 'nope'");
        }
        _ => panic!("expected an error"),
    }
}

#[test]
fn chain_stage_parse_error_message() {
    match parse_chain_stage(1, "", Some(response())) {
        Err(e) => {
            assert!(matches!(&e, PipeError::Parse { stage: 1, .. }));
            assert_eq!(
                e.message(),
                "Pipe failed at stage 1: parse error\n  Expression: \n  Reason:     Usage error: chain expression requires target operation\n  To debug:   spall chain validate ''"
            );
        }
        _ => panic!("expected an error"),
    }
}

#[test]
fn pipe_error_messages_for_load_and_request() {
    let e = PipeError::SpecLoad { stage: 1, api: s("petstore"), reason: s("unknown API 'petstore'") };
    assert_eq!(
        e.message(),
        "Pipe failed at stage 1: could not load the spec for API 'petstore'\n  Reason:     unknown API 'petstore'"
    );
    let h = PipeError::Http { stage: 0, reason: s("boom") };
    assert_eq!(h.message(), "Pipe failed at stage 0: request error\n  Reason:     boom");
    let j = PipeError::JmesPath { stage: 4, expr: s("a"), reason: s("b") };
    assert_eq!(
        j.message(),
        "Pipe failed at stage 4: jmespath error\n  Expression: a\n  Reason:     b\n  To debug:   echo '{}' | spall jmespath 'a'"
    );
}
