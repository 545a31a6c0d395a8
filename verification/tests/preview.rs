use spall_cli::preview::request_preview;

fn s(x: &str) -> String {
    x.to_string()
}

#[test]
fn preview_frames_request_and_hides_secrets() {
    let headers = vec![
        (s("authorization"), s("Bearer secret")),
        (s("accept"), s("application/json")),
        (s("x-note"), s("caf\u{e9}")),
    ];
    let lines = request_preview("POST", "https://api.test/pets", &headers, Some(b"{\"a\":1}\r\nsecond\n")).unwrap();
    assert_eq!(
        lines,
        vec![
            s("\u{250c}\u{2500} Request Preview"),
            s("\u{2502} POST https://api.test/pets"),
            s("\u{2502} authorization: [REDACTED]"),
            s("\u{2502} accept: application/json"),
            s("\u{2502} x-note: ?"),
            s("\u{2502} Body (16 bytes):"),
            s("\u{2502}   {\"a\":1}"),
            s("\u{2502}   second"),
            s("\u{2514}\u{2500} End Preview"),
        ]
    );
}

#[test]
fn preview_without_body() {
    let lines = request_preview("GET", "/x", &Vec::new(), None).unwrap();
    assert_eq!(
        lines,
        vec![s("\u{250c}\u{2500} Request Preview"), s("\u{2502} GET /x"), s("\u{2514}\u{2500} End Preview")]
    );
}

#[test]
fn preview_cuts_long_body() {
    let body = "x".repeat(600);
    let lines = request_preview("PUT", "/y", &Vec::new(), Some(body.as_bytes())).unwrap();
    assert_eq!(lines.len(), 6);
    assert_eq!(lines[2], "\u{2502} Body (600 bytes):");
    assert_eq!(lines[3], format!("\u{2502}   {}", "x".repeat(512)));
    assert_eq!(lines[4], "\u{2502}   ... (truncated)");
}

#[test]
fn preview_refuses_cut_inside_a_character() {
    let mut body = "x".repeat(511);
    body.push('\u{e9}');
    body.push_str("tail");
    assert!(request_preview("PUT", "/y", &Vec::new(), Some(body.as_bytes())).is_none());
    let mut ok = "x".repeat(510);
    ok.push('\u{e9}');
    ok.push_str("tail");
    let lines = request_preview("PUT", "/y", &Vec::new(), Some(ok.as_bytes())).unwrap();
    assert_eq!(lines[3], format!("\u{2502}   {}\u{e9}", "x".repeat(510)));
}
