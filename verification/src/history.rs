//! Request-history records and the header-redaction rule applied before a
//! request is stored.

use vstd::prelude::*;
use crate::text;

verus! {

/// True when a header name (compared case-insensitively) mentions `auth`,
/// `cookie`, `token` or `key`.
pub open spec fn sensitive_name(name: Seq<char>) -> bool {
    let l = text::lower(name);
    text::contains(l, seq!['a', 'u', 't', 'h'])
        || text::contains(l, seq!['c', 'o', 'o', 'k', 'i', 'e'])
        || text::contains(l, seq!['t', 'o', 'k', 'e', 'n'])
        || text::contains(l, seq!['k', 'e', 'y'])
}

/// Check whether a header name is sensitive and should be redacted in history.
pub fn is_sensitive_header(name: &str) -> (b: bool)
    ensures
        b == sensitive_name(name@),
{
    let l = text::lower_vec(&text::chars_of(name));
    let auth = vec!['a', 'u', 't', 'h'];
    let cookie = vec!['c', 'o', 'o', 'k', 'i', 'e'];
    let token = vec!['t', 'o', 'k', 'e', 'n'];
    let key = vec!['k', 'e', 'y'];
    proof {
        assert(auth@ =~= seq!['a', 'u', 't', 'h']);
        assert(cookie@ =~= seq!['c', 'o', 'o', 'k', 'i', 'e']);
        assert(token@ =~= seq!['t', 'o', 'k', 'e', 'n']);
        assert(key@ =~= seq!['k', 'e', 'y']);
    }
    text::contains_exec(&l, &auth) || text::contains_exec(&l, &cookie) || text::contains_exec(&l, &token)
        || text::contains_exec(&l, &key)
}


/// A recorded request, as stored in the history.
pub struct RequestRecord {
    /// Seconds since the Unix epoch.
    pub timestamp: u64,
    pub api: String,
    pub operation: String,
    pub method: String,
    pub url: String,
    /// The response status, 0 when there was no response.
    pub status_code: u16,
    pub duration_ms: u64,
    pub request_headers: Vec<(String, String)>,
    pub response_headers: Vec<(String, String)>,
}

/// A row of the `requests` table.
pub struct HistoryRow {
    pub id: i64,
    pub timestamp: u64,
    pub api: String,
    pub operation: String,
    pub method: String,
    pub url: String,
    pub status_code: u16,
    pub duration_ms: u64,
}

/// Full request details, headers included.
pub struct FullRequest {
    pub row: HistoryRow,
    pub request_headers: Vec<(String, String)>,
    pub response_headers: Vec<(String, String)>,
}

/// The view of an optional string.
pub open spec fn opt_view(o: Option<String>) -> Option<Seq<char>> {
    match o {
        Some(v) => Some(v@),
        None => None,
    }
}

/// The value stored for a header: `[REDACTED]` for a sensitive name, `?`
/// for a value that is not visible ASCII (`None`), else the value.
pub open spec fn stored_value(name: Seq<char>, value: Option<Seq<char>>) -> Seq<char> {
    if sensitive_name(name) {
        "[REDACTED]"@
    } else {
        match value {
            Some(v) => v,
            None => "?"@,
        }
    }
}

/// `stored` is `headers` as stored: same names in the same order, values
/// redacted by `stored_value`.
pub open spec fn stored_headers(stored: Seq<(String, String)>, headers: Seq<(String, Option<String>)>) -> bool {
    &&& stored.len() == headers.len()
    &&& forall|i: int| 0 <= i < stored.len() ==> #[trigger] stored[i].0@ == headers[i].0@
        && stored[i].1@ == stored_value(headers[i].0@, opt_view(headers[i].1))
}

/// The headers as stored: names kept, values redacted by `stored_value`.
pub fn redact_headers(headers: &Vec<(String, Option<String>)>) -> (r: Vec<(String, String)>)
    ensures
        stored_headers(r@, headers@),
{
    let mut r: Vec<(String, String)> = Vec::new();
    let mut i: usize = 0;
    while i < headers.len()
        invariant
            i <= headers.len(),
            r@.len() == i,
            forall|k: int| 0 <= k < i ==> #[trigger] r@[k].0@ == headers@[k].0@
                && r@[k].1@ == stored_value(headers@[k].0@, opt_view(headers@[k].1)),
        decreases headers.len() - i,
    {
        let name = &headers[i].0;
        let value = if is_sensitive_header(name.as_str()) {
            "[REDACTED]".to_owned()
        } else {
            match &headers[i].1 {
                Some(v) => v.clone(),
                None => "?".to_owned(),
            }
        };
        proof {
            assert(value@ == stored_value(headers@[i as int].0@, opt_view(headers@[i as int].1)));
        }
        r.push((name.clone(), value));
        i = i + 1;
    }
    r
}

/// The record of a request: a missing status is stored as 0, headers are
/// stored redacted (see `redact_headers`).
pub fn build_record(
    timestamp: u64,
    api: &str,
    operation: &str,
    method: &str,
    url: &str,
    status: Option<u16>,
    duration_ms: u64,
    request_headers: &Vec<(String, Option<String>)>,
    response_headers: &Vec<(String, Option<String>)>,
) -> (r: RequestRecord)
    ensures
        r.timestamp == timestamp,
        r.api@ == api@,
        r.operation@ == operation@,
        r.method@ == method@,
        r.url@ == url@,
        r.status_code == match status { Some(s) => s, None => 0u16 },
        r.duration_ms == duration_ms,
        stored_headers(r.request_headers@, request_headers@),
        stored_headers(r.response_headers@, response_headers@),
{
    let rq = redact_headers(request_headers);
    let rs = redact_headers(response_headers);
    let rec = RequestRecord {
        timestamp,
        api: api.to_owned(),
        operation: operation.to_owned(),
        method: method.to_owned(),
        url: url.to_owned(),
        status_code: match status {
            Some(s) => s,
            None => 0,
        },
        duration_ms,
        request_headers: rq,
        response_headers: rs,
    };
    rec
}

/// How `history show` prints a stored header: sensitive values are masked
/// again.
pub open spec fn shown_header(name: Seq<char>, value: Seq<char>) -> Seq<char> {
    "    "@ + name + ": "@ + if sensitive_name(name) { "[REDACTED]"@ } else { value }
}

/// The line `history show` prints for a stored header.
pub fn show_header_line(name: &str, value: &str) -> (r: String)
    ensures
        r@ == shown_header(name@, value@),
{
    let mut r = "    ".to_owned();
    r.append(name);
    r.append(": ");
    if is_sensitive_header(name) {
        r.append("[REDACTED]");
    } else {
        r.append(value);
    }
    r
}


/// ASCII uppercase of one character (other characters unchanged).
pub open spec fn upper_char(c: char) -> char {
    if 'a' <= c && c <= 'z' {
        ((c as u32) - 32) as char
    } else {
        c
    }
}

/// ASCII uppercase of a whole sequence.
pub open spec fn upper(s: Seq<char>) -> Seq<char> {
    s.map_values(|c: char| upper_char(c))
}

/// A character allowed in an HTTP token (RFC 9110 `tchar`).
pub open spec fn is_tchar(c: char) -> bool {
    ('a' <= c && c <= 'z') || ('A' <= c && c <= 'Z') || ('0' <= c && c <= '9') || c == '!' || c == '#'
        || c == '$' || c == '%' || c == '&' || c == '\'' || c == '*' || c == '+' || c == '-' || c == '.'
        || c == '^' || c == '_' || c == '`' || c == '|' || c == '~'
}

/// An HTTP token: one or more token characters.
pub open spec fn is_token(s: Seq<char>) -> bool {
    s.len() > 0 && forall|i: int| 0 <= i < s.len() ==> is_tchar(#[trigger] s[i])
}

/// `s.parse::<reqwest::Method>()`: a method name parses exactly when it is
/// an HTTP token (the `http` crate checks each byte against the token
/// characters and refuses an empty name).
#[verifier::external_body]
fn method_parses(s: &str) -> (r: bool)
    ensures
        r == is_token(s@),
{
    s.parse::<reqwest::Method>().is_ok()
}

/// The method a recorded request is replayed with: its name in ASCII
/// uppercase, which must be an HTTP token (every standard method is one).
pub open spec fn replay_method_of(method: Seq<char>) -> Result<Seq<char>, Seq<char>> {
    let u = upper(method);
    if is_token(u) {
        Ok(u)
    } else {
        Err("Unknown HTTP method: "@ + u)
    }
}

/// The method a recorded request is replayed with (see `replay_method_of`);
/// a name that is not a method is a usage error.
pub fn replay_method(method: &str) -> (r: Result<String, crate::error::SpallCliError>)
    ensures
        match (r, replay_method_of(method@)) {
            (Ok(m), Ok(n)) => m@ == n,
            (Err(crate::error::SpallCliError::Usage(e)), Err(f)) => e@ == f,
            _ => false,
        },
{
    let v = crate::text::chars_of(method);
    let mut u = String::new();
    let mut i: usize = 0;
    while i < v.len()
        invariant
            i <= v.len(),
            u@ == upper(v@.subrange(0, i as int)),
        decreases v.len() - i,
    {
        let c = v[i];
        let d = if 'a' <= c && c <= 'z' { ((c as u8) - 32) as char } else { c };
        crate::text::push_char(&mut u, d);
        proof {
            assert(upper(v@.subrange(0, i + 1)) =~= upper(v@.subrange(0, i as int)).push(upper_char(c)));
        }
        i = i + 1;
    }
    proof {
        assert(v@.subrange(0, v@.len() as int) =~= v@);
    }
    if method_parses(u.as_str()) {
        Ok(u)
    } else {
        let mut m = "Unknown HTTP method: ".to_owned();
        m.append(u.as_str());
        Err(crate::error::SpallCliError::Usage(m))
    }
}


/// What `chrono` writes for a Unix time as `%Y-%m-%d %H:%M:%S UTC` (the
/// epoch for a time it cannot represent).
pub uninterp spec fn utc_text(ts: u64) -> Seq<char>;

/// `chrono::DateTime::from_timestamp(ts, 0)` formatted as
/// `%Y-%m-%d %H:%M:%S UTC`; its result is named `utc_text` of `ts`.
#[verifier::external_body]
pub(crate) fn format_timestamp(ts: u64) -> (r: String)
    ensures
        r@ == utc_text(ts),
{
    let dt = chrono::DateTime::from_timestamp(ts as i64, 0).unwrap_or(chrono::DateTime::UNIX_EPOCH);
    dt.format("%Y-%m-%d %H:%M:%S UTC").to_string()
}

/// The decimal text of an `i64`.
fn i64_text(n: i64) -> (r: String)
    ensures
        r@ == crate::mcp::rpc::int_text(n as int),
{
    if n < 0 {
        let mut s = "-".to_owned();
        let m: i128 = -(n as i128);
        text::push_dec(&mut s, m as u128);
        proof {
            reveal_strlit("-");
            assert(s@ =~= seq!['-'] + text::dec((-(n as int)) as nat));
        }
        s
    } else {
        text::dec_string(n as u128)
    }
}

/// The header lines of `history show`, in stored order.
pub open spec fn shown_headers(h: Seq<(String, String)>) -> Seq<Seq<char>> {
    h.map_values(|p: (String, String)| shown_header(p.0@, p.1@))
}

/// What `history show` prints for a recorded request: its fields, one per
/// line, then its request and response headers (sensitive values hidden).
pub open spec fn request_lines(full: FullRequest) -> Seq<Seq<char>> {
    seq![
        "Request #"@ + crate::mcp::rpc::int_text(full.row.id as int),
        "  Timestamp: "@ + utc_text(full.row.timestamp),
        "  API:       "@ + full.row.api@,
        "  Operation: "@ + full.row.operation@,
        "  Method:    "@ + full.row.method@,
        "  URL:       "@ + full.row.url@,
        "  Status:    "@ + text::dec(full.row.status_code as nat),
        "  Duration:  "@ + text::dec(full.row.duration_ms as nat) + "ms"@,
        "  Request Headers:"@,
    ] + shown_headers(full.request_headers@) + seq!["  Response Headers:"@] + shown_headers(full.response_headers@)
}

/// Appends the `history show` lines of `headers`.
fn push_header_lines(out: &mut Vec<String>, headers: &Vec<(String, String)>)
    ensures
        text::views(final(out)@) == text::views(old(out)@) + shown_headers(headers@),
{
    let mut i: usize = 0;
    while i < headers.len()
        invariant
            i <= headers.len(),
            text::views(out@) == text::views(old(out)@) + shown_headers(headers@.take(i as int)),
        decreases headers.len() - i,
    {
        let line = show_header_line(headers[i].0.as_str(), headers[i].1.as_str());
        let ghost before = out@;
        out.push(line);
        proof {
            assert(text::views(out@) =~= text::views(before).push(line@));
            assert(shown_headers(headers@.take(i + 1)) =~= shown_headers(headers@.take(i as int)).push(
                shown_header(headers@[i as int].0@, headers@[i as int].1@)));
        }
        i = i + 1;
    }
    proof {
        assert(headers@.take(headers@.len() as int) =~= headers@);
    }
}

/// Appends `line`.
fn push_line(out: &mut Vec<String>, line: String)
    ensures
        text::views(final(out)@) == text::views(old(out)@).push(line@),
{
    out.push(line);
    proof {
        assert(text::views(final(out)@) =~= text::views(old(out)@).push(line@));
    }
}

/// A line made of a label and a text.
fn labelled(label: &str, value: &str) -> (r: String)
    ensures
        r@ == label@ + value@,
{
    let mut m = label.to_owned();
    m.append(value);
    m
}

/// What `history show` prints for a recorded request (see `request_lines`).
pub fn show_request_lines(full: &FullRequest) -> (r: Vec<String>)
    ensures
        text::views(r@) == request_lines(*full),
{
    let row = &full.row;
    let mut out: Vec<String> = Vec::new();
    let id = i64_text(row.id);
    push_line(&mut out, labelled("Request #", id.as_str()));
    let ts = format_timestamp(row.timestamp);
    push_line(&mut out, labelled("  Timestamp: ", ts.as_str()));
    push_line(&mut out, labelled("  API:       ", row.api.as_str()));
    push_line(&mut out, labelled("  Operation: ", row.operation.as_str()));
    push_line(&mut out, labelled("  Method:    ", row.method.as_str()));
    push_line(&mut out, labelled("  URL:       ", row.url.as_str()));
    let st = text::dec_string(row.status_code as u128);
    push_line(&mut out, labelled("  Status:    ", st.as_str()));
    let mut d = text::dec_string(row.duration_ms as u128);
    d.append("ms");
    push_line(&mut out, labelled("  Duration:  ", d.as_str()));
    push_line(&mut out, "  Request Headers:".to_owned());
    proof {
        assert(text::views(Seq::<String>::empty()) =~= Seq::<Seq<char>>::empty());
        assert("  Duration:  "@ + (text::dec(row.duration_ms as nat) + "ms"@) =~= "  Duration:  "@ + text::dec(row.duration_ms as nat) + "ms"@);
        assert(text::views(out@) =~= seq![
            "Request #"@ + crate::mcp::rpc::int_text(row.id as int),
            "  Timestamp: "@ + utc_text(row.timestamp),
            "  API:       "@ + row.api@,
            "  Operation: "@ + row.operation@,
            "  Method:    "@ + row.method@,
            "  URL:       "@ + row.url@,
            "  Status:    "@ + text::dec(row.status_code as nat),
            "  Duration:  "@ + text::dec(row.duration_ms as nat) + "ms"@,
            "  Request Headers:"@,
        ]);
    }
    push_header_lines(&mut out, &full.request_headers);
    push_line(&mut out, "  Response Headers:".to_owned());
    push_header_lines(&mut out, &full.response_headers);
    proof {
        assert(text::views(out@) =~= request_lines(*full));
    }
    out
}


/// The line the interactive shell's `history` prints for a request:
/// `#<id> <time> | <api> <operation> | <method> <url> | <ms>ms`.
pub open spec fn brief_line(row: HistoryRow) -> Seq<char> {
    "#"@ + crate::mcp::rpc::int_text(row.id as int) + " "@ + utc_text(row.timestamp) + " | "@ + row.api@ + " "@
        + row.operation@ + " | "@ + row.method@ + " "@ + row.url@ + " | "@ + text::dec(row.duration_ms as nat) + "ms"@
}

/// The line the interactive shell's `history` prints (see `brief_line`).
pub fn brief_history_line(row: &HistoryRow) -> (r: String)
    ensures
        r@ == brief_line(*row),
{
    let mut m = "#".to_owned();
    let id = i64_text(row.id);
    m.append(id.as_str());
    m.append(" ");
    let ts = format_timestamp(row.timestamp);
    m.append(ts.as_str());
    m.append(" | ");
    m.append(row.api.as_str());
    m.append(" ");
    m.append(row.operation.as_str());
    m.append(" | ");
    m.append(row.method.as_str());
    m.append(" ");
    m.append(row.url.as_str());
    m.append(" | ");
    text::push_dec(&mut m, row.duration_ms as u128);
    m.append("ms");
    proof {
        assert(m@ =~= brief_line(*row));
    }
    m
}


/// The cells of a request in the `history list` table.
pub struct HistoryCells {
    pub id: i64,
    pub timestamp: String,
    pub api: String,
    pub operation: String,
    pub method: String,
    pub url: String,
    pub status: String,
    pub duration: String,
}

/// The cells of a request in the `history list` table: the time as UTC
/// text, the status in decimal and the duration in milliseconds.
pub fn history_cells(row: &HistoryRow) -> (r: HistoryCells)
    ensures
        r.id == row.id,
        r.timestamp@ == utc_text(row.timestamp),
        r.api@ == row.api@,
        r.operation@ == row.operation@,
        r.method@ == row.method@,
        r.url@ == row.url@,
        r.status@ == text::dec(row.status_code as nat),
        r.duration@ == text::dec(row.duration_ms as nat) + "ms"@,
{
    let mut duration = text::dec_string(row.duration_ms as u128);
    duration.append("ms");
    HistoryCells {
        id: row.id,
        timestamp: format_timestamp(row.timestamp),
        api: row.api.clone(),
        operation: row.operation.clone(),
        method: row.method.clone(),
        url: row.url.clone(),
        status: text::dec_string(row.status_code as u128),
        duration,
    }
}

} // verus!
