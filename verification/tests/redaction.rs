use spall_cli::error::SpallCliError;
use spall_cli::history::{
    brief_history_line, build_record, history_cells, is_sensitive_header, redact_headers, replay_method,
    show_header_line, show_request_lines, FullRequest, HistoryRow,
};
use spall_cli::mcp::verbose::{
    format_headers, quote_if_needed, redact_header_value, redacted_header_names, RedactionReason,
    VALUE_REDACTED,
};

fn s(x: &str) -> String {
    x.to_string()
}

#[test]
fn redact_header_value_bearer_preserves_scheme() {
    let (out, reason) = redact_header_value("Authorization", "Bearer supersecret");
    assert_eq!(out, "Bearer [REDACTED]");
    assert!(matches!(reason, Some(RedactionReason::AuthorizationHeader)));
}

#[test]
fn redact_header_value_basic_preserves_scheme() {
    let (out, _) = redact_header_value("Authorization", "Basic dXNlcjpwYXNz");
    assert_eq!(out, "Basic [REDACTED]");
}

#[test]
fn redact_header_value_unknown_scheme_redacts_entire_value() {
    let (out, reason) = redact_header_value("Authorization", "OpaqueTokenXYZ");
    assert_eq!(out, "[REDACTED]");
    assert!(matches!(reason, Some(RedactionReason::AuthorizationHeader)));
}

#[test]
fn redact_header_value_cookie_redacts_full() {
    let (out, reason) = redact_header_value("Cookie", "session=abc123");
    assert_eq!(out, "[REDACTED]");
    assert!(matches!(reason, Some(RedactionReason::CookieHeader)));
}

#[test]
fn redact_header_value_case_insensitive_name_match() {
    let (out, _) = redact_header_value("AUTHORIZATION", "Bearer x");
    assert_eq!(out, "Bearer [REDACTED]");
    let (out2, _) = redact_header_value("proxy-authorization", "Basic y");
    assert_eq!(out2, "Basic [REDACTED]");
}

#[test]
fn redact_header_value_passes_through_unredacted_names() {
    let (out, reason) = redact_header_value("Content-Type", "application/json");
    assert_eq!(out, "application/json");
    assert!(reason.is_none());
}

#[test]
fn redact_header_value_proxy_reason() {
    let (out, reason) = redact_header_value("Proxy-Authorization", "token");
    assert_eq!(out, "[REDACTED]");
    assert!(matches!(reason, Some(RedactionReason::ProxyAuthorizationHeader)));
}

#[test]
fn quote_if_needed_borrows_clean_strings() {
    assert_eq!(quote_if_needed("clean-value"), "clean-value");
    assert_eq!(quote_if_needed(""), "");
}

#[test]
fn quote_if_needed_quotes_problematic_strings() {
    assert_eq!(quote_if_needed("has space"), "\"has space\"");
    assert_eq!(quote_if_needed("has=equals"), "\"has=equals\"");
    assert_eq!(quote_if_needed("has\"quote"), "\"has\\\"quote\"");
}

#[test]
fn format_headers_redacts_and_sorts_by_name() {
    let hm = vec![
        (s("content-type"), Some(s("application/json"))),
        (s("authorization"), Some(s("Bearer supersecret"))),
    ];
    let out = format_headers(&hm);
    assert!(out.starts_with("{authorization: \"Bearer [REDACTED]\""), "got: {}", out);
    assert!(out.contains("content-type: application/json"), "got: {}", out);
    assert!(!out.contains("supersecret"), "leak: {}", out);
    assert_eq!(out, "{authorization: \"Bearer [REDACTED]\", content-type: application/json}");
}

#[test]
fn redacted_header_names_const_matches_redact_function() {
    for name in redacted_header_names() {
        let (out, reason) = redact_header_value(name, "raw-value");
        assert_eq!(out, VALUE_REDACTED, "header {} in const but not redacted", name);
        assert!(reason.is_some(), "header {} in const but no RedactionReason set", name);
    }
}

#[test]
fn format_headers_emits_binary_placeholder_for_non_ascii_value() {
    let hm = vec![(s("x-binary"), None)];
    let out = format_headers(&hm);
    assert!(out.contains("x-binary: <binary>"), "got: {}", out);
}

#[test]
fn format_headers_empty() {
    assert_eq!(format_headers(&vec![]), "{}");
}

#[test]
fn sensitive_detection() {
    assert!(is_sensitive_header("authorization"));
    assert!(is_sensitive_header("cookie"));
    assert!(is_sensitive_header("x-api-key"));
    assert!(!is_sensitive_header("content-type"));
}

#[test]
fn sensitive_detection_is_case_insensitive() {
    assert!(is_sensitive_header("X-Auth-Token"));
    assert!(is_sensitive_header("Set-COOKIE"));
    assert!(!is_sensitive_header("Accept"));
}

#[test]
fn stored_headers_are_redacted() {
    let hs = vec![
        (s("Authorization"), Some(s("Bearer abc"))),
        (s("Accept"), Some(s("application/json"))),
        (s("X-Weird"), None),
    ];
    let out = redact_headers(&hs);
    assert_eq!(
        out,
        vec![
            (s("Authorization"), s("[REDACTED]")),
            (s("Accept"), s("application/json")),
            (s("X-Weird"), s("?")),
        ]
    );
}

#[test]
fn record_stores_missing_status_as_zero() {
    let req = vec![(s("x-api-key"), Some(s("k")))];
    let rec = build_record(10, "petstore", "getPet", "GET", "http://x/pets/1", None, 12, &req, &vec![]);
    assert_eq!(rec.status_code, 0);
    assert_eq!(rec.api, "petstore");
    assert_eq!(rec.request_headers, vec![(s("x-api-key"), s("[REDACTED]"))]);
    let rec2 = build_record(10, "a", "b", "GET", "u", Some(404), 1, &vec![], &vec![]);
    assert_eq!(rec2.status_code, 404);
}

#[test]
fn history_show_masks_sensitive_headers() {
    assert_eq!(show_header_line("Cookie", "a=b"), "    Cookie: [REDACTED]");
    assert_eq!(show_header_line("Accept", "text/plain"), "    Accept: text/plain");
}

#[test]
fn replay_method_is_uppercased_token() {
    assert_eq!(replay_method("get").ok(), Some(s("GET")));
    assert_eq!(replay_method("Options").ok(), Some(s("OPTIONS")));
    assert_eq!(replay_method("purge").ok(), Some(s("PURGE")));
    match replay_method("bad method") {
        Err(SpallCliError::Usage(m)) => assert_eq!(m, "Unknown HTTP method: BAD METHOD"),
        _ => panic!("expected a usage error"),
    }
    assert!(replay_method("").is_err());
}

fn history_row() -> HistoryRow {
    HistoryRow {
        id: 7,
        timestamp: 1700000000,
        api: s("petstore"),
        operation: s("get-pet"),
        method: s("GET"),
        url: s("https://pets.test/pets/1"),
        status_code: 200,
        duration_ms: 42,
    }
}

#[test]
fn history_show_lines_hide_secrets() {
    let full = FullRequest {
        row: history_row(),
        request_headers: vec![(s("authorization"), s("Bearer x")), (s("accept"), s("*/*"))],
        response_headers: vec![(s("set-cookie"), s("a=b"))],
    };
    assert_eq!(
        show_request_lines(&full),
        vec![
            s("Request #7"),
            s("  Timestamp: 2023-11-14 22:13:20 UTC"),
            s("  API:       petstore"),
            s("  Operation: get-pet"),
            s("  Method:    GET"),
            s("  URL:       https://pets.test/pets/1"),
            s("  Status:    200"),
            s("  Duration:  42ms"),
            s("  Request Headers:"),
            s("    authorization: [REDACTED]"),
            s("    accept: */*"),
            s("  Response Headers:"),
            s("    set-cookie: [REDACTED]"),
        ]
    );
}

#[test]
fn history_brief_line() {
    assert_eq!(
        brief_history_line(&history_row()),
        "#7 2023-11-14 22:13:20 UTC | petstore get-pet | GET https://pets.test/pets/1 | 42ms"
    );
    let mut r = history_row();
    r.id = -3;
    r.timestamp = 0;
    assert_eq!(brief_history_line(&r), "#-3 1970-01-01 00:00:00 UTC | petstore get-pet | GET https://pets.test/pets/1 | 42ms");
}

#[test]
fn history_list_cells() {
    let c = history_cells(&history_row());
    assert_eq!(c.id, 7);
    assert_eq!(c.timestamp, "2023-11-14 22:13:20 UTC");
    assert_eq!(c.status, "200");
    assert_eq!(c.duration, "42ms");
    assert_eq!(c.url, "https://pets.test/pets/1");
}
