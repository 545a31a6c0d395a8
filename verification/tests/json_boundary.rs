use spall_cli::arazzo::runner::{parse_inputs, resolve_source_url, ArazzoRunError};
use spall_cli::auth::tokens_from_body;
use spall_cli::error::SpallCliError;
use spall_cli::execute::{records_for_next_stage, response_value};
use spall_cli::json::{to_json_text, Json};
use spall_cli::mcp::http::{post_gate, PostGate, Sessions};
use spall_cli::mcp::rpc::{line_step, LineStep};
use spall_cli::mcp::tools::build_registry;
use spall_cli::output::{emit_body, render_value, Emission, OutputMode};

fn s(x: &str) -> String {
    x.to_string()
}

fn reply_text(step: LineStep) -> String {
    match step {
        LineStep::Reply(j) => to_json_text(&j),
        _ => panic!("expected a reply"),
    }
}

#[test]
fn rpc_line_that_is_not_json_gets_a_parse_error() {
    let reg = build_registry(&vec![], &vec![], &vec![], None, &vec![]).0;
    assert_eq!(
        reply_text(line_step("{not json", &vec![], &reg)),
        "{\"jsonrpc\":\"2.0\",\"id\":null,\"error\":{\"code\":-32700,\"message\":\"Parse error\"}}"
    );
}

#[test]
fn rpc_lines_are_routed_by_method() {
    let reg = build_registry(&vec![], &vec![], &vec![], None, &vec![]).0;
    assert_eq!(
        reply_text(line_step(r#"{"jsonrpc":"2.0","id":7,"method":"ping"}"#, &vec![], &reg)),
        "{\"jsonrpc\":\"2.0\",\"id\":7,\"result\":{}}"
    );
    assert!(matches!(line_step(r#"{"jsonrpc":"2.0","method":"notifications/initialized"}"#, &vec![], &reg), LineStep::NoReply));
    assert!(matches!(line_step(r#"{"jsonrpc":"2.0","method":"bogus"}"#, &vec![], &reg), LineStep::NoReply));
    assert_eq!(
        reply_text(line_step(r#"{"jsonrpc":"2.0","id":"a","method":"bogus"}"#, &vec![], &reg)),
        "{\"jsonrpc\":\"2.0\",\"id\":\"a\",\"error\":{\"code\":-32601,\"message\":\"unknown method: bogus\"}}"
    );
    assert_eq!(
        reply_text(line_step(r#"{"jsonrpc":"2.0","id":3}"#, &vec![], &reg)),
        "{\"jsonrpc\":\"2.0\",\"id\":3,\"error\":{\"code\":-32602,\"message\":\"missing method\"}}"
    );
    assert_eq!(
        reply_text(line_step(r#"{"id":1,"method":"tools/list"}"#, &vec![], &reg)),
        "{\"jsonrpc\":\"2.0\",\"id\":1,\"result\":{\"tools\":[]}}"
    );
    match line_step(r#"{"id":2,"method":"tools/call","params":{"name":"x"}}"#, &vec![], &reg) {
        LineStep::Call(Some(id), params) => {
            assert_eq!(to_json_text(&id), "2");
            assert_eq!(to_json_text(&params), "{\"name\":\"x\"}");
        }
        _ => panic!("expected a call"),
    }
    assert!(matches!(line_step(r#"{"method":"initialize","id":1}"#, &vec![], &reg), LineStep::Reply(_)));
}

#[test]
fn post_gate_checks_json_session_and_version() {
    let mut sessions = Sessions::new();
    match post_gate("nope", None, None, &mut sessions, 0) {
        PostGate::Reject(j) => assert!(to_json_text(&j).contains("-32700")),
        _ => panic!("expected a parse error"),
    }
    assert!(matches!(
        post_gate(r#"{"id":1,"method":"initialize"}"#, None, None, &mut sessions, 0),
        PostGate::Dispatch { initialize: true }
    ));
    match post_gate(r#"{"id":9,"method":"ping"}"#, Some("abc"), None, &mut sessions, 0) {
        PostGate::Reject(j) => {
            let t = to_json_text(&j);
            assert!(t.contains("\"id\":9") && t.contains("-32600") && t.contains("Mcp-Session-Id"));
        }
        _ => panic!("expected a session error"),
    }
    sessions.start(s("abc"), 1000);
    match post_gate(r#"{"id":9,"method":"ping"}"#, Some("abc"), Some("1999-01-01"), &mut sessions, 2000) {
        PostGate::Reject(j) => assert!(to_json_text(&j).contains("unsupported MCP-Protocol-Version '1999-01-01'")),
        _ => panic!("expected a version error"),
    }
    assert!(matches!(
        post_gate(r#"{"id":9,"method":"ping"}"#, Some("abc"), Some("2025-06-18"), &mut sessions, 3000),
        PostGate::Dispatch { initialize: false }
    ));
}

#[test]
fn inputs_keep_json_types_and_order_keys() {
    let m = parse_inputs(&vec![s("n=42"), s("b=true"), s("name=alice"), s("a={\"x\":1}"), s("n=7")]).ok().unwrap();
    let keys: Vec<&str> = m.iter().map(|(k, _)| k.as_str()).collect();
    assert_eq!(keys, vec!["a", "b", "n", "name"]);
    assert_eq!(to_json_text(&m[0].1), "{\"x\":1}");
    assert!(matches!(m[1].1, Json::Bool(true)));
    assert_eq!(to_json_text(&m[2].1), "7");
    assert!(matches!(&m[3].1, Json::Str(v) if v == "alice"));
    match parse_inputs(&vec![s("a=1"), s("oops")]) {
        Err(ArazzoRunError::ParseDoc { path, reason }) => {
            assert_eq!(path, "--input");
            assert_eq!(reason, "expected key=value, got 'oops'");
        }
        _ => panic!("expected a parse error"),
    }
}

#[test]
fn response_bodies_are_json_or_text() {
    assert_eq!(to_json_text(&response_value(b"{\"a\": [1, 2]}")), "{\"a\":[1,2]}");
    assert!(matches!(response_value(b"plain text"), Json::Str(t) if t == "plain text"));
    assert!(matches!(response_value(&[0x66, 0xff]), Json::Str(t) if t == "f\u{fffd}"));
    assert!(records_for_next_stage(200) && records_for_next_stage(299));
    assert!(!records_for_next_stage(199) && !records_for_next_stage(404));
}

#[test]
fn token_bodies_are_read_in_the_library() {
    let t = tokens_from_body("api", br#"{"access_token":"t","refresh_token":"r","expires_in":60}"#, 100, "u", "c").ok().unwrap();
    assert_eq!(t.access_token, "t");
    assert_eq!(t.refresh_token.as_deref(), Some("r"));
    assert_eq!(t.expires_at, 160);
    match tokens_from_body("api", b"<html>", 100, "u", "c") {
        Err(SpallCliError::AuthResolution { api, message }) => {
            assert_eq!(api, "api");
            assert!(message.starts_with("parse token response: "));
        }
        _ => panic!("expected a parse error"),
    }
    match tokens_from_body("api", br#"{"expires_in":60}"#, 100, "u", "c") {
        Err(SpallCliError::AuthResolution { message, .. }) => assert_eq!(message, "token response missing access_token"),
        _ => panic!("expected a missing-token error"),
    }
    match tokens_from_body("api", br#"{"access_token":"t","expires_in":18446744073709551615}"#, 100, "u", "c") {
        Err(SpallCliError::AuthResolution { message, .. }) => assert_eq!(message, "token lifetime out of range"),
        _ => panic!("expected a range error"),
    }
}

#[test]
fn source_urls_resolve_against_the_document() {
    assert_eq!(resolve_source_url("https://x.io/a.json", "dir/flow.json"), "https://x.io/a.json");
    assert_eq!(resolve_source_url("/abs/spec.json", "dir/flow.json"), "/abs/spec.json");
    assert_eq!(resolve_source_url("spec.json", "dir/flow.json"), "dir/spec.json");
    assert_eq!(resolve_source_url("spec.json", "flow.json"), "spec.json");
}

#[test]
fn rendering_follows_the_mode() {
    let rows = Json::Array(vec![
        Json::Object(vec![(s("a"), Json::Number(s("1"))), (s("b"), Json::Str(s("x")))]),
        Json::Object(vec![(s("a"), Json::Number(s("2")))]),
    ]);
    let raw = render_value(OutputMode::Raw, &rows);
    assert_eq!(raw.text, "[{\"a\":1,\"b\":\"x\"},{\"a\":2}]");
    assert!(raw.warning.is_none());
    let csv = render_value(OutputMode::Csv, &rows);
    assert_eq!(csv.text, "a,b\n1,x\n2,\n");
    let table = render_value(OutputMode::Table, &rows);
    assert!(table.text.contains('│') && table.text.contains('x') && table.text.ends_with('\n'));
    let empty = render_value(OutputMode::Table, &Json::Array(vec![]));
    assert_eq!(empty.text, "(empty result set)\n");
    let not_array = render_value(OutputMode::Table, &Json::Bool(true));
    assert_eq!(not_array.text, "true\n");
    assert_eq!(not_array.warning.as_deref(), Some("Warning: table mode requires a JSON array. Falling back to pretty JSON."));
    let mixed = Json::Array(vec![Json::Object(vec![(s("a"), Json::Number(s("1")))]), Json::Number(s("5"))]);
    let c = render_value(OutputMode::Csv, &mixed);
    assert_eq!(c.text, "a\n1\n[{\"a\":1},5]");
    assert!(c.warning.is_some());
    let pretty = render_value(OutputMode::Pretty, &Json::Object(vec![(s("k"), Json::Str(s("v")))]));
    assert!(pretty.text.contains('k') && pretty.text.ends_with('\n'));
}

#[test]
fn emitted_bodies_fall_back_when_not_json() {
    match emit_body(OutputMode::Table, b"not json") {
        Emission::Body { warning } => assert_eq!(
            warning.as_deref(),
            Some("Warning: expected JSON for table output, got non-JSON body. Falling back to raw.")
        ),
        _ => panic!("expected the raw body"),
    }
    assert!(matches!(emit_body(OutputMode::Raw, b"[1]"), Emission::Body { warning: None }));
    match emit_body(OutputMode::Csv, b"[{\"a\":1}]") {
        Emission::Rendered(r) => assert_eq!(r.text, "a\n1\n"),
        _ => panic!("expected a rendering"),
    }
}
