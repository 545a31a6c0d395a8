//! Verbose-mode debug logging for the MCP server.
//!
//! Each verbose event is one stderr line prefixed with the sentinel
//! `[spall-mcp]`. HTTP request headers logged at the `http-request`
//! boundary are redacted by name (case-insensitive): `authorization`,
//! `cookie` and `proxy-authorization`. Bearer / Basic prefixes are kept so
//! the auth scheme stays visible; everything after is `[REDACTED]`.

use vstd::prelude::*;
use crate::text;
use crate::json;
use crate::order;

verus! {

/// Sentinel prefix on every verbose line.
pub const SENTINEL: &'static str = "[spall-mcp]";
/// A redacted bearer credential.
pub const BEARER_REDACTED: &'static str = "Bearer [REDACTED]";
/// A redacted basic credential.
pub const BASIC_REDACTED: &'static str = "Basic [REDACTED]";
/// Any other redacted value.
pub const VALUE_REDACTED: &'static str = "[REDACTED]";

/// HTTP header names (lowercase) whose values are redacted.
pub fn redacted_header_names() -> (r: Vec<&'static str>)
    ensures
        r@.len() == 3,
        r@[0]@ == "authorization"@,
        r@[1]@ == "cookie"@,
        r@[2]@ == "proxy-authorization"@,
{
    vec!["authorization", "cookie", "proxy-authorization"]
}

/// URL query parameter names whose values would be redacted in a rendered URL.
pub fn redacted_query_params() -> (r: Vec<&'static str>)
    ensures
        r@.len() == 6,
        r@[0]@ == "api_key"@,
        r@[1]@ == "apikey"@,
        r@[2]@ == "token"@,
        r@[3]@ == "access_token"@,
        r@[4]@ == "secret"@,
        r@[5]@ == "password"@,
{
    vec!["api_key", "apikey", "token", "access_token", "secret", "password"]
}

/// Why a value was redacted.
pub enum RedactionReason {
    AuthorizationHeader,
    CookieHeader,
    ProxyAuthorizationHeader,
    SensitiveQueryParam(String),
    EmbeddedUrlCredentials,
}

/// The `kind=` token of a verbose event.
#[derive(Clone, Copy)]
pub enum VerboseEventKind {
    Startup,
    ToolsCall,
    HttpRequest,
}

/// ASCII-case-insensitive equality of two strings.
pub open spec fn eq_ignore_case(a: Seq<char>, b: Seq<char>) -> bool {
    text::lower(a) == text::lower(b)
}

/// Which redaction a header name calls for, if any.
pub open spec fn header_reason(name: Seq<char>) -> Option<RedactionReason> {
    if eq_ignore_case(name, "authorization"@) {
        Some(RedactionReason::AuthorizationHeader)
    } else if eq_ignore_case(name, "cookie"@) {
        Some(RedactionReason::CookieHeader)
    } else if eq_ignore_case(name, "proxy-authorization"@) {
        Some(RedactionReason::ProxyAuthorizationHeader)
    } else {
        None
    }
}

/// The placeholder that replaces a sensitive value: the auth scheme is kept
/// for bearer and basic credentials.
pub open spec fn redacted_value(value: Seq<char>) -> Seq<char> {
    if text::starts_with(value, "Bearer "@) || text::starts_with(value, "bearer "@) {
        BEARER_REDACTED@
    } else if text::starts_with(value, "Basic "@) || text::starts_with(value, "basic "@) {
        BASIC_REDACTED@
    } else {
        VALUE_REDACTED@
    }
}

/// What is logged for a header value.
pub open spec fn rendered_header(name: Seq<char>, value: Seq<char>) -> Seq<char> {
    if header_reason(name) is Some {
        redacted_value(value)
    } else {
        value
    }
}

/// ASCII-case-insensitive equality of two strings.
pub fn eq_ignore_ascii_case(a: &str, b: &str) -> (r: bool)
    ensures
        r == eq_ignore_case(a@, b@),
{
    let la = text::lower_vec(&text::chars_of(a));
    let lb = text::lower_vec(&text::chars_of(b));
    if la.len() != lb.len() {
        return false;
    }
    let r = text::starts_with_exec(&la, &lb);
    proof {
        assert(la@.subrange(0, lb@.len() as int) =~= la@);
    }
    r
}

/// Redact a single header value if its name is one of the redacted names.
/// Bearer/Basic prefixes are preserved; everything after is `[REDACTED]`.
///
/// Returns `(rendered_value, Some(reason))` when redacted, `(value, None)`
/// when passed through.
pub fn redact_header_value(name: &str, value: &str) -> (r: (String, Option<RedactionReason>))
    ensures
        r.0@ == rendered_header(name@, value@),
        r.1 matches Some(x) ==> header_reason(name@) matches Some(y) && x == y,
        r.1 is None <==> header_reason(name@) is None,
{
    proof {
        reveal_strlit("authorization");
        reveal_strlit("cookie");
        reveal_strlit("proxy-authorization");
    }
    let reason = if eq_ignore_ascii_case(name, "authorization") {
        RedactionReason::AuthorizationHeader
    } else if eq_ignore_ascii_case(name, "cookie") {
        RedactionReason::CookieHeader
    } else if eq_ignore_ascii_case(name, "proxy-authorization") {
        RedactionReason::ProxyAuthorizationHeader
    } else {
        return (value.to_owned(), None);
    };
    let v = text::chars_of(value);
    let out = if starts_with_str(&v, "Bearer ") || starts_with_str(&v, "bearer ") {
        BEARER_REDACTED.to_owned()
    } else if starts_with_str(&v, "Basic ") || starts_with_str(&v, "basic ") {
        BASIC_REDACTED.to_owned()
    } else {
        VALUE_REDACTED.to_owned()
    };
    (out, Some(reason))
}

/// Whether the characters `v` begin with `prefix`.
fn starts_with_str(v: &Vec<char>, prefix: &str) -> (b: bool)
    ensures
        b == text::starts_with(v@, prefix@),
{
    text::starts_with_exec(v, &text::chars_of(prefix))
}

/// Characters that would break the `key=value` shape of a verbose line.
pub open spec fn breaks_line(c: char) -> bool {
    c == ' ' || c == '\t' || c == '=' || c == '"' || c == '\\' || (c as u32) < 0x20
}

/// A value as written on a verbose line: JSON-quoted when it holds a
/// character that would break the line, else as it is.
pub open spec fn quoted_if_needed(s: Seq<char>) -> Seq<char> {
    if exists|i: int| 0 <= i < s.len() && breaks_line(#[trigger] s[i]) {
        json::quote(s)
    } else {
        s
    }
}

/// JSON-quote a value iff it contains whitespace, `=`, `"`, `\` or a
/// control character.
pub fn quote_if_needed(s: &str) -> (r: String)
    ensures
        r@ == quoted_if_needed(s@),
{
    let v = text::chars_of(s);
    let mut i: usize = 0;
    while i < v.len()
        invariant
            i <= v.len(),
            v@ == s@,
            forall|k: int| 0 <= k < i ==> !breaks_line(#[trigger] v@[k]),
        decreases v.len() - i,
    {
        let c = v[i];
        if c == ' ' || c == '\t' || c == '=' || c == '"' || c == '\\' || (c as u32) < 0x20 {
            proof {
                assert(breaks_line(s@[i as int]));
            }
            return json::json_quote(s);
        }
        i = i + 1;
    }
    s.to_owned()
}

/// One `name: value` entry of a logged header block.
pub open spec fn header_entry(name: Seq<char>, rendered: Seq<char>) -> Seq<char> {
    name + ": "@ + quoted_if_needed(rendered)
}

/// Entries joined with `", "`.
pub open spec fn join_entries(s: order::PairSeq) -> Seq<char>
    decreases s.len(),
{
    if s.len() == 0 {
        seq![]
    } else if s.len() == 1 {
        header_entry(s[0].0, s[0].1)
    } else {
        join_entries(s.drop_last()) + ", "@ + header_entry(s.last().0, s.last().1)
    }
}

/// The `(name, rendered value)` pairs of a header list: a value that is not
/// text is shown as `<binary>`.
pub open spec fn rendered_pairs(headers: Seq<(String, Option<String>)>) -> order::PairSeq {
    headers.map_values(|h: (String, Option<String>)| (h.0@, rendered_header(h.0@, match h.1 {
        Some(v) => v@,
        None => "<binary>"@,
    })))
}

/// The logged form of a header list.
pub open spec fn headers_block(headers: Seq<(String, Option<String>)>) -> Seq<char> {
    "{"@ + join_entries(order::stable_sort(rendered_pairs(headers))) + "}"@
}

/// Format headers as `{name: value, name: value}`, redacting each value,
/// ordered by name. `None` stands for a value that is not valid text and is
/// shown as `<binary>`.
pub fn format_headers(headers: &Vec<(String, Option<String>)>) -> (r: String)
    ensures
        r@ == headers_block(headers@),
{
    let mut items: Vec<(String, String)> = Vec::new();
    let mut i: usize = 0;
    proof {
        reveal_strlit("<binary>");
    }
    while i < headers.len()
        invariant
            i <= headers.len(),
            order::pair_views(items@) == rendered_pairs(headers@).subrange(0, i as int),
        decreases headers.len() - i,
    {
        let name = headers[i].0.as_str();
        let raw: &str = match &headers[i].1 {
            Some(v) => v.as_str(),
            None => "<binary>",
        };
        let (rendered, _reason) = redact_header_value(name, raw);
        let ghost before = items@;
        items.push((name.to_owned(), rendered));
        proof {
            assert(order::pair_views(items@) =~= order::pair_views(before).push((name@, rendered@)));
            assert(rendered_pairs(headers@).subrange(0, i + 1) =~= rendered_pairs(headers@).subrange(0, i as int).push(
                rendered_pairs(headers@)[i as int]));
        }
        i = i + 1;
    }
    proof {
        assert(rendered_pairs(headers@).subrange(0, i as int) =~= rendered_pairs(headers@));
    }
    let sorted = order::sort_pairs_by_name(items);
    let ghost sv = order::pair_views(sorted@);
    let mut out = String::from_str("{");
    let mut j: usize = 0;
    while j < sorted.len()
        invariant
            j <= sorted.len(),
            sv == order::pair_views(sorted@),
            out@ == "{"@ + join_entries(sv.subrange(0, j as int)),
        decreases sorted.len() - j,
    {
        if j > 0 {
            out.append(", ");
        }
        out.append(sorted[j].0.as_str());
        out.append(": ");
        let q = quote_if_needed(sorted[j].1.as_str());
        out.append(q.as_str());
        proof {
            let t = sv.subrange(0, j + 1);
            assert(t.drop_last() =~= sv.subrange(0, j as int));
            assert(t.last() == sv[j as int]);
            if j == 0 {
                assert(t.len() == 1);
            }
        }
        j = j + 1;
    }
    out.append("}");
    proof {
        assert(sv.subrange(0, j as int) =~= sv);
    }
    out
}


/// A sensitive header's value is never logged: what is logged is one of the
/// fixed placeholders, whatever the value was.
pub proof fn law_redacted_header_hides_value(name: Seq<char>, value: Seq<char>)
    requires
        header_reason(name) is Some,
    ensures
        rendered_header(name, value) == BEARER_REDACTED@ || rendered_header(name, value) == BASIC_REDACTED@
            || rendered_header(name, value) == VALUE_REDACTED@,
{
}

/// The logged header block lists every header once, with its rendered
/// value, ordered by name (headers of the same name keep their order).
pub proof fn law_header_block_sorted_permutation(headers: Seq<(String, Option<String>)>)
    ensures
        order::sorted_by_name(order::stable_sort(rendered_pairs(headers))),
        order::stable_sort(rendered_pairs(headers)).to_multiset() == rendered_pairs(headers).to_multiset(),
{
    order::lemma_stable_sort_sorted(rendered_pairs(headers));
    order::lemma_stable_sort_multiset(rendered_pairs(headers));
}

} // verus!
