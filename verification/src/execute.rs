//! Request-shaping rules shared by every way an operation is executed:
//! the programmatic argument bundle, URL assembly and status mapping.

use vstd::prelude::*;
use crate::json::{self, Json, JsonV};
use crate::http::HttpConfig;
use crate::order::{self, PairSeq};
use crate::strmap;

verus! {

/// Structured arguments for executing an operation without a command line.
pub struct ProgrammaticArgs {
    /// Path parameters keyed by name (keys strictly increasing).
    pub path: Vec<(String, String)>,
    /// Query parameters keyed by name, one value each (keys strictly increasing).
    pub query: Vec<(String, String)>,
    /// Additional query pairs sent after `query`; a name may repeat.
    pub query_extras: Vec<(String, String)>,
    /// Headers keyed by name (keys strictly increasing).
    pub header: Vec<(String, String)>,
    /// Cookies keyed by name (keys strictly increasing).
    pub cookie: Vec<(String, String)>,
    /// Optional JSON request body.
    pub body: Option<Json>,
    /// A `--spall-auth`-style override, the highest-priority auth source.
    pub auth_override: Option<String>,
    /// A server URL that overrides the resolved base URL.
    pub server_override: Option<String>,
    /// HTTP client configuration.
    pub http: HttpConfig,
    /// Retry attempts beyond the first.
    pub retry_count: u8,
    /// Cap on a `Retry-After` delay, in seconds.
    pub retry_max_wait_secs: u64,
}

/// What the argument buckets of a `ProgrammaticArgs` hold.
pub struct ArgsView {
    pub path: PairSeq,
    pub query: PairSeq,
    pub query_extras: PairSeq,
    pub header: PairSeq,
    pub cookie: PairSeq,
    pub body: Option<JsonV>,
}

/// No arguments at all.
pub open spec fn empty_args() -> ArgsView {
    ArgsView {
        path: seq![],
        query: seq![],
        query_extras: seq![],
        header: seq![],
        cookie: seq![],
        body: None,
    }
}

/// The keyed buckets are sorted maps.
pub open spec fn args_wf(a: ArgsView) -> bool {
    strmap::keys_sorted(a.path) && strmap::keys_sorted(a.query) && strmap::keys_sorted(a.header)
        && strmap::keys_sorted(a.cookie)
}

impl ProgrammaticArgs {
    /// The argument buckets.
    pub open spec fn args_view(&self) -> ArgsView {
        ArgsView {
            path: order::pair_views(self.path@),
            query: order::pair_views(self.query@),
            query_extras: order::pair_views(self.query_extras@),
            header: order::pair_views(self.header@),
            cookie: order::pair_views(self.cookie@),
            body: match self.body {
                Some(b) => Some(b@),
                None => None,
            },
        }
    }

    /// Empty buckets, no overrides, default client settings, one retry and
    /// a 60-second `Retry-After` cap.
    pub fn new() -> (r: Self)
        ensures
            r.args_view() == empty_args(),
            r.auth_override is None,
            r.server_override is None,
            r.retry_count == 1,
            r.retry_max_wait_secs == 60,
            r.http.timeout_secs == 30,
    {
        let r = ProgrammaticArgs {
            path: Vec::new(),
            query: Vec::new(),
            query_extras: Vec::new(),
            header: Vec::new(),
            cookie: Vec::new(),
            body: None,
            auth_override: None,
            server_override: None,
            http: HttpConfig::default(),
            retry_count: 1,
            retry_max_wait_secs: 60,
        };
        proof {
            assert(order::pair_views(r.path@) =~= Seq::<(Seq<char>, Seq<char>)>::empty());
            assert(order::pair_views(r.query@) =~= Seq::<(Seq<char>, Seq<char>)>::empty());
            assert(order::pair_views(r.query_extras@) =~= Seq::<(Seq<char>, Seq<char>)>::empty());
            assert(order::pair_views(r.header@) =~= Seq::<(Seq<char>, Seq<char>)>::empty());
            assert(order::pair_views(r.cookie@) =~= Seq::<(Seq<char>, Seq<char>)>::empty());
            assert(r.args_view() == empty_args());
        }
        r
    }
}

impl Default for ProgrammaticArgs {
    fn default() -> (r: Self)
        ensures
            r.args_view() == empty_args(),
            r.auth_override is None,
            r.server_override is None,
            r.retry_count == 1,
            r.retry_max_wait_secs == 60,
    {
        ProgrammaticArgs::new()
    }
}


/// The outcome of an operation, whatever its HTTP status.
pub struct OperationResult {
    pub status: u16,
    /// The original body bytes (absent on the merged pagination path).
    pub raw: Option<Vec<u8>>,
    /// The body as JSON (or as a JSON string of its text).
    pub value: Json,
    /// Response headers with lowercased names, in name order.
    pub headers: Vec<(String, String)>,
}

/// A 4xx status.
pub open spec fn is_client_error(status: u16) -> bool {
    400 <= status && status <= 499
}

/// A 5xx status.
pub open spec fn is_server_error(status: u16) -> bool {
    500 <= status && status <= 599
}

/// Lift a 4xx or 5xx outcome into the matching error; any other outcome is
/// handed back unchanged.
pub fn raise_for_status(res: OperationResult) -> (r: Result<OperationResult, crate::error::SpallCliError>)
    ensures
        is_client_error(res.status) ==> (r matches Err(crate::error::SpallCliError::Http4xx(c)) && c == res.status),
        is_server_error(res.status) ==> (r matches Err(crate::error::SpallCliError::Http5xx(c)) && c == res.status),
        !is_client_error(res.status) && !is_server_error(res.status) ==> (r matches Ok(o) && o == res),
{
    let code = res.status;
    if 400 <= code && code <= 499 {
        return Err(crate::error::SpallCliError::Http4xx(code));
    }
    if 500 <= code && code <= 599 {
        return Err(crate::error::SpallCliError::Http5xx(code));
    }
    Ok(res)
}

/// How many times a request may be sent: once for a multipart body (its
/// stream cannot be replayed), else once plus the retries.
pub open spec fn max_attempts_of(multipart: bool, retry_count: u8) -> nat {
    if multipart {
        1
    } else {
        (retry_count + 1) as nat
    }
}

/// How many times a request may be sent.
pub fn max_attempts(multipart: bool, retry_count: u8) -> (n: u16)
    ensures
        n == max_attempts_of(multipart, retry_count),
{
    if multipart {
        1
    } else {
        retry_count as u16 + 1
    }
}

/// What came back from one attempt.
pub enum SendEvent {
    /// A response with this status; `retry_after_secs` is the parsed
    /// `Retry-After` delay, when the response has a usable one.
    Response { status: u16, retry_after_secs: Option<u64> },
    /// The request failed on the network, with this message.
    Failure(String),
}

/// What to do after an attempt.
pub enum SendAction {
    /// Hand the response back.
    Return,
    /// Wait this long, then send again.
    Retry { wait_ms: u64 },
    /// Give up with this network error message.
    Fail(String),
}

/// The delay of a network-failure retry.
pub const NETWORK_RETRY_MS: u64 = 500;

/// After attempt `attempt` (from 0) of `max_attempts`: a 429 or 503 with a
/// `Retry-After` of at most `max_wait_secs` is retried after that delay
/// while attempts remain, any other response is returned; a network failure
/// is retried after half a second while attempts remain, else it is the
/// error.
pub open spec fn send_action(attempt: nat, max_attempts: nat, event: SendEvent, max_wait_secs: u64) -> SendAction {
    let more = attempt + 1 < max_attempts;
    match event {
        SendEvent::Response { status, retry_after_secs } => {
            if (status == 429 || status == 503) && more && (retry_after_secs matches Some(w) && w <= max_wait_secs) {
                SendAction::Retry { wait_ms: (retry_after_secs.unwrap() * 1000) as u64 }
            } else {
                SendAction::Return
            }
        },
        SendEvent::Failure(m) => if more {
            SendAction::Retry { wait_ms: NETWORK_RETRY_MS }
        } else {
            SendAction::Fail(m)
        },
    }
}

/// The decision after one attempt (see `send_action`). A retry is only ever
/// chosen while attempts remain, so a request is sent at most
/// `max_attempts` times.
pub fn next_send_action(attempt: u16, max_attempts: u16, event: SendEvent, max_wait_secs: u64) -> (r: SendAction)
    requires
        max_wait_secs <= u64::MAX / 1000,
    ensures
        r == send_action(attempt as nat, max_attempts as nat, event, max_wait_secs),
        r is Retry ==> attempt + 1 < max_attempts,
{
    let more = (attempt as u32) + 1 < max_attempts as u32;
    match event {
        SendEvent::Response { status, retry_after_secs } => {
            if (status == 429 || status == 503) && more {
                if let Some(w) = retry_after_secs {
                    if w <= max_wait_secs {
                        return SendAction::Retry { wait_ms: w * 1000 };
                    }
                }
            }
            SendAction::Return
        },
        SendEvent::Failure(m) => if more {
            SendAction::Retry { wait_ms: NETWORK_RETRY_MS }
        } else {
            SendAction::Fail(m)
        },
    }
}

/// The `Cookie` header of some cookie pairs: `k=v` joined with `; `, none
/// when there are no cookies.
pub open spec fn cookie_header_of(cookies: PairSeq) -> Option<Seq<char>> {
    if cookies.len() == 0 {
        None
    } else {
        Some(crate::text::join(cookies.map_values(|p: (Seq<char>, Seq<char>)| p.0 + "="@ + p.1), "; "@))
    }
}

/// The `Cookie` header of some cookie pairs.
pub fn cookie_header(cookies: &Vec<(String, String)>) -> (r: Option<String>)
    ensures
        crate::discover::opt_view(r) == cookie_header_of(order::pair_views(cookies@)),
{
    if cookies.len() == 0 {
        return None;
    }
    let mut parts: Vec<String> = Vec::new();
    let mut i: usize = 0;
    while i < cookies.len()
        invariant
            i <= cookies.len(),
            parts@.len() == i,
            forall|k: int| 0 <= k < i ==> #[trigger] parts@[k]@ == cookies@[k].0@ + "="@ + cookies@[k].1@,
        decreases cookies.len() - i,
    {
        let mut p = cookies[i].0.clone();
        p.append("=");
        p.append(cookies[i].1.as_str());
        parts.push(p);
        i = i + 1;
    }
    proof {
        assert(crate::text::views(parts@) =~= order::pair_views(cookies@).map_values(|p: (Seq<char>, Seq<char>)| p.0 + "="@ + p.1));
    }
    Some(crate::text::join_exec(&parts, "; "))
}

/// A `next` link resolved against the current request URL: absolute
/// `http(s)` links stay as they are.
pub open spec fn next_url_of(current: Seq<char>, next: Seq<char>) -> Option<Seq<char>> {
    if crate::text::starts_with(next, "http://"@) || crate::text::starts_with(next, "https://"@) {
        Some(next)
    } else {
        crate::discover::url_joined(current, next)
    }
}

/// Resolve a `next` link against the current request URL. A current URL
/// that does not parse, or a link that does not join, is a network error
/// that says which, with the `url` crate's message.
pub fn resolve_next_url(current: &str, next: &str) -> (r: Result<String, crate::error::SpallCliError>)
    ensures
        match r {
            Ok(u) => next_url_of(current@, next@) == Some(u@),
            Err(crate::error::SpallCliError::Network(m)) => next_url_of(current@, next@) is None && if crate::discover::url_parses(current@) {
                crate::text::starts_with(m@, "Invalid next URL '"@ + next@ + "': "@)
            } else {
                crate::text::starts_with(m@, "Invalid current URL: "@)
            },
            Err(_) => false,
        },
{
    let nv = crate::text::chars_of(next);
    if crate::text::starts_with_exec(&nv, &crate::text::chars_of("http://")) || crate::text::starts_with_exec(&nv, &crate::text::chars_of("https://")) {
        return Ok(next.to_owned());
    }
    match crate::discover::url_join(current, next) {
        Ok(u) => Ok(u),
        Err(crate::discover::JoinFailure::Base(e)) => {
            let mut m = "Invalid current URL: ".to_owned();
            let ghost pre = m@;
            m.append(e.as_str());
            proof {
                assert(m@.subrange(0, pre.len() as int) =~= pre);
            }
            Err(crate::error::SpallCliError::Network(m))
        },
        Err(crate::discover::JoinFailure::Join(e)) => {
            let mut m = "Invalid next URL '".to_owned();
            m.append(next);
            m.append("': ");
            let ghost pre = m@;
            m.append(e.as_str());
            proof {
                assert(m@.subrange(0, pre.len() as int) =~= pre);
            }
            Err(crate::error::SpallCliError::Network(m))
        },
    }
}

/// The value of `u64`'s `FromStr`: an optional `+`, then decimal digits
/// that fit.
pub open spec fn u64_text(t: Seq<char>) -> Option<u64> {
    if t.len() > 0 && t[0] == '+' {
        crate::json::u64_of_number(t.drop_first())
    } else {
        crate::json::u64_of_number(t)
    }
}

/// An HTTP-date's time in seconds since the epoch, as `chrono`'s RFC 2822
/// parser reads it (`None` when it does not parse).
pub uninterp spec fn rfc2822_epoch(t: Seq<char>) -> Option<i64>;

/// `chrono::DateTime::parse_from_rfc2822`, then `timestamp()`: the crate's
/// result, named; a parse error gives `None`.
#[verifier::external_body]
fn parse_rfc2822(t: &str) -> (r: Option<i64>)
    ensures
        r == rfc2822_epoch(t@),
{
    match chrono::DateTime::parse_from_rfc2822(t) {
        Ok(d) => Some(d.timestamp()),
        Err(_) => None,
    }
}

/// The delay a `Retry-After` value asks for, at `now` (seconds since the
/// epoch): delta-seconds as they are; an HTTP-date as the whole seconds
/// until it (0 when it is past); `None` when it is neither. The value is
/// trimmed first.
pub open spec fn retry_after_of(value: Seq<char>, now: i64) -> Option<u64> {
    let v = crate::text::trim(value);
    match u64_text(v) {
        Some(n) => Some(n),
        None => match rfc2822_epoch(v) {
            Some(t) => if t - now <= 0 {
                Some(0)
            } else {
                Some((t - now) as u64)
            },
            None => None,
        },
    }
}

/// The delay a `Retry-After` value asks for (see `retry_after_of`).
pub fn parse_retry_after(value: &str, now: i64) -> (r: Option<u64>)
    ensures
        r == retry_after_of(value@, now),
{
    let v0 = crate::text::chars_of(value);
    let (a, b) = crate::text::trim_bounds(&v0, 0, v0.len(), None);
    proof {
        assert(v0@.subrange(0, v0@.len() as int) =~= v0@);
    }
    let t = crate::text::string_of_range(&v0, a, b);
    let tv = crate::text::chars_of(t.as_str());
    let n = if tv.len() > 0 && tv[0] == '+' {
        let rest = crate::text::string_of_range(&tv, 1, tv.len());
        proof {
            assert(tv@.subrange(1, tv@.len() as int) =~= tv@.drop_first());
        }
        Json::Number(rest).as_u64()
    } else {
        Json::Number(t.clone()).as_u64()
    };
    if let Some(secs) = n {
        return Some(secs);
    }
    match parse_rfc2822(t.as_str()) {
        Some(target) => {
            let delta: i128 = target as i128 - now as i128;
            if delta <= 0 {
                Some(0)
            } else {
                Some(delta as u64)
            }
        },
        None => None,
    }
}


/// The number of sends of a request whose attempts meet `events` in turn,
/// counting from attempt `attempt`: each retry leads to one more send, any
/// other decision ends the request.
pub open spec fn sends(events: Seq<SendEvent>, attempt: nat, max_attempts: nat, max_wait_secs: u64) -> nat
    decreases events.len(),
{
    if events.len() == 0 {
        attempt
    } else {
        match send_action(attempt, max_attempts, events[0], max_wait_secs) {
            SendAction::Retry { .. } => sends(events.drop_first(), attempt + 1, max_attempts, max_wait_secs),
            _ => attempt + 1,
        }
    }
}

/// However the attempts go, a request is sent at most `max_attempts` times.
pub proof fn law_sends_bounded(events: Seq<SendEvent>, attempt: nat, max_attempts: nat, max_wait_secs: u64)
    requires
        attempt < max_attempts,
    ensures
        sends(events, attempt, max_attempts, max_wait_secs) <= max_attempts,
    decreases events.len(),
{
    if events.len() > 0 {
        if send_action(attempt, max_attempts, events[0], max_wait_secs) is Retry {
            law_sends_bounded(events.drop_first(), attempt + 1, max_attempts, max_wait_secs);
        }
    }
}


/// A part of a multipart body.
pub enum FormPart {
    /// A file part, read from `path` and named after it.
    File { key: String, path: String },
    /// A text part.
    Text { key: String, value: String },
}

/// A part of a multipart body as plain values: `(key, is a file, path or text)`.
pub open spec fn part_view(p: FormPart) -> (Seq<char>, bool, Seq<char>) {
    match p {
        FormPart::File { key, path } => (key@, true, path@),
        FormPart::Text { key, value } => (key@, false, value@),
    }
}

/// Where a request body comes from.
pub enum BodyPlan {
    /// No body.
    Empty,
    /// The body is read from standard input.
    Stdin { content_type: String },
    /// The body is read from this file.
    File { path: String, content_type: String },
    /// The body is this text.
    Text { text: String, content_type: String },
    /// A multipart form of these parts.
    Multipart(Vec<FormPart>),
    /// A URL-encoded form body.
    Fields(String),
}

/// The body flags of an operation's command line.
pub struct BodyFlags {
    /// The operation declares a request body.
    pub has_body: bool,
    /// The declared body is required.
    pub required: bool,
    /// `--no-data` was given.
    pub no_data: bool,
    /// The `--data` values.
    pub data: Option<Vec<String>>,
    /// `--spall-content-type`.
    pub content_type: Option<String>,
    /// The `--form` values.
    pub form: Option<Vec<String>>,
    /// The `--field` values.
    pub field: Option<Vec<String>>,
}

/// The parts of `--form key=value` values (`key=@path` is a file); values
/// without `=` are skipped.
pub open spec fn form_parts(vals: Seq<Seq<char>>) -> Seq<(Seq<char>, bool, Seq<char>)>
    decreases vals.len(),
{
    if vals.len() == 0 {
        seq![]
    } else {
        let rest = form_parts(vals.drop_last());
        match crate::text::split_once(vals.last(), '=') {
            Some((k, r)) => if r.len() > 0 && r[0] == '@' {
                rest.push((k, true, r.drop_first()))
            } else {
                rest.push((k, false, r))
            },
            None => rest,
        }
    }
}

/// The `--field` values that hold `=`, in order.
pub open spec fn field_pairs(vals: Seq<Seq<char>>) -> Seq<Seq<char>>
    decreases vals.len(),
{
    if vals.len() == 0 {
        seq![]
    } else if crate::text::split_once(vals.last(), '=') is Some {
        field_pairs(vals.drop_last()).push(vals.last())
    } else {
        field_pairs(vals.drop_last())
    }
}

/// What a body plan is, as plain values.
pub enum BodyPlanV {
    Empty,
    Stdin(Seq<char>),
    File(Seq<char>, Seq<char>),
    Text(Seq<char>, Seq<char>),
    Multipart(Seq<(Seq<char>, bool, Seq<char>)>),
    Fields(Seq<char>),
}

/// The body plan's plain values.
pub open spec fn plan_view(p: BodyPlan) -> BodyPlanV {
    match p {
        BodyPlan::Empty => BodyPlanV::Empty,
        BodyPlan::Stdin { content_type } => BodyPlanV::Stdin(content_type@),
        BodyPlan::File { path, content_type } => BodyPlanV::File(path@, content_type@),
        BodyPlan::Text { text, content_type } => BodyPlanV::Text(text@, content_type@),
        BodyPlan::Multipart(parts) => BodyPlanV::Multipart(parts@.map_values(|q: FormPart| part_view(q))),
        BodyPlan::Fields(e) => BodyPlanV::Fields(e@),
    }
}

/// Where the body comes from: nothing when the operation has none or an
/// optional one is turned off by `--no-data`; else the last `--data` value
/// (`-` reads stdin, `@path` a file, anything else is the body; content type
/// from `--spall-content-type`, default `application/json`); else the
/// `--form` parts; else the `--field` pairs joined with `&` and URL-encoded
/// as a whole; else nothing.
pub open spec fn body_plan_of(f: BodyFlags) -> BodyPlanV {
    let ct = match f.content_type {
        Some(c) => c@,
        None => "application/json"@,
    };
    if !f.has_body || (!f.required && f.no_data) {
        BodyPlanV::Empty
    } else if f.data matches Some(d) && d@.len() > 0 {
        let last = f.data.unwrap()@.last()@;
        if last == "-"@ {
            BodyPlanV::Stdin(ct)
        } else if last.len() > 0 && last[0] == '@' {
            BodyPlanV::File(last.drop_first(), ct)
        } else {
            BodyPlanV::Text(last, ct)
        }
    } else if f.form is Some {
        BodyPlanV::Multipart(form_parts(crate::text::views(f.form.unwrap()@)))
    } else if f.field is Some {
        BodyPlanV::Fields(crate::auth::url_encoded(crate::text::join(field_pairs(crate::text::views(f.field.unwrap()@)), "&"@)))
    } else {
        BodyPlanV::Empty
    }
}

/// The text after the first character.
fn after_first(v: &Vec<char>) -> (r: String)
    requires
        v.len() > 0,
    ensures
        r@ == v@.drop_first(),
{
    let r = crate::text::string_of_range(v, 1, v.len());
    proof {
        assert(v@.subrange(1, v@.len() as int) =~= v@.drop_first());
    }
    r
}

/// The multipart parts of `--form` values.
fn form_parts_exec(vals: &Vec<String>) -> (r: Vec<FormPart>)
    ensures
        r@.map_values(|q: FormPart| part_view(q)) == form_parts(crate::text::views(vals@)),
{
    let mut r: Vec<FormPart> = Vec::new();
    let mut i: usize = 0;
    while i < vals.len()
        invariant
            i <= vals.len(),
            r@.map_values(|q: FormPart| part_view(q)) == form_parts(crate::text::views(vals@.subrange(0, i as int))),
        decreases vals.len() - i,
    {
        proof {
            assert(crate::text::views(vals@.subrange(0, i + 1)).drop_last() =~= crate::text::views(vals@.subrange(0, i as int)));
        }
        let ghost pre = r@;
        match crate::text::split_once_exec(vals[i].as_str(), '=') {
            Some((k, rest)) => {
                let rv = crate::text::chars_of(rest.as_str());
                if rv.len() > 0 && rv[0] == '@' {
                    r.push(FormPart::File { key: k, path: after_first(&rv) });
                } else {
                    r.push(FormPart::Text { key: k, value: rest });
                }
                proof {
                    assert(r@.map_values(|q: FormPart| part_view(q)) =~= pre.map_values(|q: FormPart| part_view(q)).push(part_view(r@.last())));
                }
            },
            None => {},
        }
        i = i + 1;
    }
    proof {
        assert(vals@.subrange(0, vals@.len() as int) =~= vals@);
    }
    r
}

/// The `--field` values that hold `=`.
fn field_pairs_exec(vals: &Vec<String>) -> (r: Vec<String>)
    ensures
        crate::text::views(r@) == field_pairs(crate::text::views(vals@)),
{
    let mut r: Vec<String> = Vec::new();
    let mut i: usize = 0;
    while i < vals.len()
        invariant
            i <= vals.len(),
            crate::text::views(r@) == field_pairs(crate::text::views(vals@.subrange(0, i as int))),
        decreases vals.len() - i,
    {
        proof {
            assert(crate::text::views(vals@.subrange(0, i + 1)).drop_last() =~= crate::text::views(vals@.subrange(0, i as int)));
        }
        let ghost pre = r@;
        if crate::text::split_once_exec(vals[i].as_str(), '=').is_some() {
            r.push(vals[i].clone());
            proof {
                assert(crate::text::views(r@) =~= crate::text::views(pre).push(vals@[i as int]@));
            }
        }
        i = i + 1;
    }
    proof {
        assert(vals@.subrange(0, vals@.len() as int) =~= vals@);
    }
    r
}

/// Where the request body comes from (see `body_plan_of`).
pub fn resolve_body(f: &BodyFlags) -> (r: BodyPlan)
    ensures
        plan_view(r) == body_plan_of(*f),
{
    if !f.has_body || (!f.required && f.no_data) {
        return BodyPlan::Empty;
    }
    if let Some(d) = &f.data {
        if d.len() > 0 {
            let ct = match &f.content_type {
                Some(c) => c.clone(),
                None => "application/json".to_owned(),
            };
            let last = &d[d.len() - 1];
            let lv = crate::text::chars_of(last.as_str());
            if crate::json::str_eq(last.as_str(), "-") {
                return BodyPlan::Stdin { content_type: ct };
            } else if lv.len() > 0 && lv[0] == '@' {
                return BodyPlan::File { path: after_first(&lv), content_type: ct };
            } else {
                return BodyPlan::Text { text: last.clone(), content_type: ct };
            }
        }
    }
    if let Some(vals) = &f.form {
        let parts = form_parts_exec(vals);
        return BodyPlan::Multipart(parts);
    }
    if let Some(vals) = &f.field {
        let pairs = field_pairs_exec(vals);
        let joined = crate::text::join_exec(&pairs, "&");
        return BodyPlan::Fields(crate::auth::url_encode(joined.as_str()));
    }
    BodyPlan::Empty
}


/// The path template with each path parameter that has a value
/// substituted, parameter by parameter in declaration order: `{name}` and
/// `{name*}` are both replaced.
pub open spec fn substituted(path: Seq<char>, params: Seq<crate::ir::ParamInfo>, args: PairSeq) -> Seq<char>
    decreases params.len(),
{
    if params.len() == 0 {
        path
    } else {
        let p = params[0];
        let next = if p.location == crate::ir::ParameterLocation::Path && strmap::lookup(args, p.name@) is Some {
            let v = strmap::lookup(args, p.name@).unwrap();
            crate::text::replace_all(
                crate::text::replace_all(path, "{"@ + p.name@ + "}"@, v),
                "{"@ + p.name@ + "*}"@,
                v,
            )
        } else {
            path
        };
        substituted(next, params.drop_first(), args)
    }
}

/// The first of the candidate base URLs that is given, else `/`.
pub open spec fn base_of(
    server_override: Option<Seq<char>>,
    entry_base: Option<Seq<char>>,
    op_server: Option<Seq<char>>,
    spec_server: Option<Seq<char>>,
) -> Seq<char> {
    match server_override {
        Some(b) => b,
        None => match entry_base {
            Some(b) => b,
            None => match op_server {
                Some(b) => b,
                None => match spec_server {
                    Some(b) => b,
                    None => "/"@,
                },
            },
        },
    }
}

/// The request URL: the base without its trailing slashes, then the
/// substituted path with a leading `/`.
pub open spec fn url_of(base: Seq<char>, path: Seq<char>) -> Seq<char> {
    crate::text::trim_end_by(base, crate::text::strip_pred(Some('/'))) + if crate::text::starts_with(path, "/"@) {
        path
    } else {
        "/"@ + path
    }
}

/// The view of an optional text.
pub open spec fn ostr(o: Option<&str>) -> Option<Seq<char>> {
    match o {
        Some(s) => Some(s@),
        None => None,
    }
}

/// `{` + name + end.
fn braced(name: &str, end: &str) -> (r: String)
    ensures
        r@ == "{"@ + name@ + end@,
{
    let mut r = "{".to_owned();
    r.append(name);
    r.append(end);
    r
}

/// The request URL of an operation: the server override, else the API
/// entry's base URL, else the operation's first server, else the spec's
/// first server, else `/`; then the path template with the path arguments
/// substituted (see `substituted` and `url_of`).
pub fn build_url_with_path_args(
    op: &crate::ir::OperationInfo,
    server_override: Option<&str>,
    entry_base: Option<&str>,
    op_server: Option<&str>,
    spec_server: Option<&str>,
    path_args: &Vec<(String, String)>,
) -> (r: String)
    ensures
        r@ == url_of(
            base_of(ostr(server_override), ostr(entry_base), ostr(op_server), ostr(spec_server)),
            substituted(op.path_template@, op.parameters@, order::pair_views(path_args@)),
        ),
{
    let base: &str = match server_override {
        Some(b) => b,
        None => match entry_base {
            Some(b) => b,
            None => match op_server {
                Some(b) => b,
                None => match spec_server {
                    Some(b) => b,
                    None => "/",
                },
            },
        },
    };
    let ghost args = order::pair_views(path_args@);
    let mut path = op.path_template.clone();
    let mut i: usize = 0;
    let ghost ps = op.parameters@;
    proof {
        assert(ps.subrange(0, ps.len() as int) =~= ps);
    }
    while i < op.parameters.len()
        invariant
            i <= op.parameters.len(),
            ps == op.parameters@,
            args == order::pair_views(path_args@),
            substituted(op.path_template@, ps, args) == substituted(path@, ps.subrange(i as int, ps.len() as int), args),
        decreases op.parameters.len() - i,
    {
        let p = &op.parameters[i];
        proof {
            let rest = ps.subrange(i as int, ps.len() as int);
            assert(rest.drop_first() =~= ps.subrange(i + 1, ps.len() as int));
            assert(rest[0] == ps[i as int]);
        }
        if p.location == crate::ir::ParameterLocation::Path {
            if let Some(v) = strmap::map_get(path_args, p.name.as_str()) {
                let a = braced(p.name.as_str(), "}");
                let b = braced(p.name.as_str(), "*}");
                proof {
                    reveal_strlit("{");
                }
                let once = crate::text::replace_all_exec(path.as_str(), a.as_str(), v.as_str());
                path = crate::text::replace_all_exec(once.as_str(), b.as_str(), v.as_str());
            }
        }
        i = i + 1;
    }
    proof {
        assert(ps.subrange(ps.len() as int, ps.len() as int) =~= Seq::<crate::ir::ParamInfo>::empty());
    }
    let bv = crate::text::chars_of(base);
    let ghost pd = crate::text::strip_pred(Some('/'));
    let mut end = bv.len();
    proof {
        assert(bv@.subrange(0, bv@.len() as int) =~= bv@);
    }
    while end > 0 && bv[end - 1] == '/'
        invariant
            end <= bv.len(),
            pd == crate::text::strip_pred(Some('/')),
            crate::text::trim_end_by(bv@, pd) == crate::text::trim_end_by(bv@.subrange(0, end as int), pd),
        decreases end,
    {
        proof {
            assert(bv@.subrange(0, end as int).drop_last() =~= bv@.subrange(0, end - 1));
        }
        end = end - 1;
    }
    proof {
        assert(crate::text::trim_end_by(bv@.subrange(0, end as int), pd) == bv@.subrange(0, end as int));
    }
    let mut url = crate::text::string_of_range(&bv, 0, end);
    let pv = crate::text::chars_of(path.as_str());
    if !crate::text::starts_with_exec(&pv, &crate::text::chars_of("/")) {
        url.append("/");
    }
    url.append(path.as_str());
    url
}


/// What a command line gave for one operation, read as plain values.
pub struct OperationFlags {
    /// The value given for each parameter of the operation, in declaration order.
    pub param_values: Vec<Option<String>>,
    /// `--spall-header` values.
    pub header_flags: Vec<String>,
    /// `--spall-server` given after the operation.
    pub server_after: Option<String>,
    /// `--spall-server` given before the operation.
    pub server_before: Option<String>,
    /// `--spall-auth`.
    pub auth: Option<String>,
    /// `--spall-retry`.
    pub retry: Option<u8>,
    /// `--spall-retry-max-wait`, in seconds.
    pub retry_max_wait: Option<u64>,
}

/// `a` with `k` set to `v` in the bucket of location `loc`.
pub open spec fn bucket_put(a: ArgsView, loc: crate::ir::ParameterLocation, k: Seq<char>, v: Seq<char>) -> ArgsView {
    match loc {
        crate::ir::ParameterLocation::Path => ArgsView { path: strmap::put(a.path, k, v), ..a },
        crate::ir::ParameterLocation::Query => ArgsView { query: strmap::put(a.query, k, v), ..a },
        crate::ir::ParameterLocation::Header => ArgsView { header: strmap::put(a.header, k, v), ..a },
        crate::ir::ParameterLocation::Cookie => ArgsView { cookie: strmap::put(a.cookie, k, v), ..a },
    }
}

/// The buckets filled from the first `n` parameters: each value given goes
/// under the parameter's name in the bucket of its location, a later one
/// replacing an earlier one of the same name there.
pub open spec fn routed_args(params: Seq<crate::ir::ParamInfo>, values: Seq<Option<String>>, n: nat) -> ArgsView
    decreases n,
{
    if n == 0 {
        empty_args()
    } else {
        let a = routed_args(params, values, (n - 1) as nat);
        match values[n - 1] {
            None => a,
            Some(v) => bucket_put(a, params[n - 1].location, params[n - 1].name@, v@),
        }
    }
}

/// `h` with the `--spall-header` pairs set in turn.
pub open spec fn put_pairs(h: PairSeq, pairs: PairSeq) -> PairSeq
    decreases pairs.len(),
{
    if pairs.len() == 0 {
        h
    } else {
        strmap::put(put_pairs(h, pairs.drop_last()), pairs.last().0, pairs.last().1)
    }
}

/// The buckets of an operation's arguments: parameter values routed by
/// location, then the `--spall-header` overrides in the header bucket.
pub open spec fn args_of_flags(params: Seq<crate::ir::ParamInfo>, values: Seq<Option<String>>, header_flags: Seq<Seq<char>>) -> ArgsView {
    let a = routed_args(params, values, params.len());
    ArgsView { header: put_pairs(a.header, crate::http::header_flag_pairs(header_flags)), ..a }
}

/// Each parameter with a value lands in its location's bucket; buckets stay sorted.
proof fn lemma_routed_wf(params: Seq<crate::ir::ParamInfo>, values: Seq<Option<String>>, n: nat)
    ensures
        args_wf(routed_args(params, values, n)),
        routed_args(params, values, n).query_extras.len() == 0,
        routed_args(params, values, n).body is None,
    decreases n,
{
    if n > 0 {
        lemma_routed_wf(params, values, (n - 1) as nat);
        let a = routed_args(params, values, (n - 1) as nat);
        if let Some(v) = values[n - 1] {
            strmap::lemma_put(a.path, params[n - 1].name@, v@);
            strmap::lemma_put(a.query, params[n - 1].name@, v@);
            strmap::lemma_put(a.header, params[n - 1].name@, v@);
            strmap::lemma_put(a.cookie, params[n - 1].name@, v@);
        }
    }
}

/// The arguments of an operation from what its command line gave: the
/// parameter values routed by location, the `--spall-header` overrides
/// (which replace a header of the same name), the `--spall-server` given
/// after the operation over the one before it, the auth override, one
/// retry and a 60-second `Retry-After` cap unless given.
pub fn args_from_flags(params: &Vec<crate::ir::ParamInfo>, flags: OperationFlags, http: HttpConfig) -> (r: ProgrammaticArgs)
    requires
        flags.param_values@.len() == params@.len(),
    ensures
        r.args_view() == args_of_flags(params@, flags.param_values@, crate::text::views(flags.header_flags@)),
        r.server_override == (match flags.server_after {
            Some(s) => Some(s),
            None => flags.server_before,
        }),
        r.auth_override == flags.auth,
        r.retry_count == (match flags.retry { Some(n) => n, None => 1u8 }),
        r.retry_max_wait_secs == (match flags.retry_max_wait { Some(n) => n, None => 60u64 }),
        r.http == http,
{
    let mut args = ProgrammaticArgs::new();
    args.http = http;
    if let Some(n) = flags.retry {
        args.retry_count = n;
    }
    if let Some(n) = flags.retry_max_wait {
        args.retry_max_wait_secs = n;
    }
    args.server_override = crate::http::merged_one(flags.server_after, flags.server_before);
    args.auth_override = flags.auth;
    let values = flags.param_values;
    let mut i: usize = 0;
    while i < params.len()
        invariant
            i <= params.len(),
            values@.len() == params@.len(),
            args.args_view() == routed_args(params@, values@, i as nat),
            args.http == http,
            args.server_override == (match flags.server_after {
                Some(s) => Some(s),
                None => flags.server_before,
            }),
            args.auth_override == flags.auth,
            args.retry_count == (match flags.retry { Some(n) => n, None => 1u8 }),
            args.retry_max_wait_secs == (match flags.retry_max_wait { Some(n) => n, None => 60u64 }),
        decreases params.len() - i,
    {
        proof {
            lemma_routed_wf(params@, values@, i as nat);
        }
        if let Some(v) = &values[i] {
            let name = params[i].name.clone();
            match params[i].location {
                crate::ir::ParameterLocation::Path => strmap::map_insert(&mut args.path, name, v.clone()),
                crate::ir::ParameterLocation::Query => strmap::map_insert(&mut args.query, name, v.clone()),
                crate::ir::ParameterLocation::Header => strmap::map_insert(&mut args.header, name, v.clone()),
                crate::ir::ParameterLocation::Cookie => strmap::map_insert(&mut args.cookie, name, v.clone()),
            }
        }
        proof {
            assert(args.args_view() == routed_args(params@, values@, (i + 1) as nat));
        }
        i = i + 1;
    }
    proof {
        lemma_routed_wf(params@, values@, i as nat);
    }
    let ghost routed = args.args_view();
    let ghost fv = crate::text::views(flags.header_flags@);
    let headers = flags.header_flags;
    let mut j: usize = 0;
    while j < headers.len()
        invariant
            j <= headers.len(),
            fv == crate::text::views(headers@),
            args.args_view() == (ArgsView {
                header: put_pairs(routed.header, crate::http::header_flag_pairs(crate::text::views(headers@.subrange(0, j as int)))),
                ..routed
            }),
            strmap::keys_sorted(order::pair_views(args.header@)),
            args.http == http,
            args.server_override == (match flags.server_after {
                Some(s) => Some(s),
                None => flags.server_before,
            }),
            args.auth_override == flags.auth,
            args.retry_count == (match flags.retry { Some(n) => n, None => 1u8 }),
            args.retry_max_wait_secs == (match flags.retry_max_wait { Some(n) => n, None => 60u64 }),
        decreases headers.len() - j,
    {
        proof {
            let t = crate::text::views(headers@.subrange(0, j + 1));
            assert(t.drop_last() =~= crate::text::views(headers@.subrange(0, j as int)));
            assert(t.last() == headers@[j as int]@);
        }
        if let Some((k, v)) = crate::http::parse_header_flag(headers[j].as_str()) {
            strmap::map_insert(&mut args.header, k, v);
        }
        proof {
            let t = crate::text::views(headers@.subrange(0, j + 1));
            let prev = crate::http::header_flag_pairs(t.drop_last());
            if let Some(p) = crate::http::header_flag(t.last()) {
                assert(crate::http::header_flag_pairs(t) == prev.push(p));
                assert(prev.push(p).drop_last() =~= prev);
                assert(prev.push(p).last() == p);
            } else {
                assert(crate::http::header_flag_pairs(t) == prev);
            }
        }
        j = j + 1;
    }
    proof {
        assert(headers@.subrange(0, headers@.len() as int) =~= headers@);
    }
    args
}


/// How an operation's request goes out.
pub enum ExecRoute {
    /// Only say what would be sent.
    DryRun,
    /// Show the request without sending it.
    Preview,
    /// Sent on its own: paging, a multipart body, or a body that is not JSON.
    Direct,
    /// Through the shared argument pipeline, with any JSON body.
    Pipeline,
}

/// The route of an operation's request: a dry run, then a preview, win;
/// paging, a multipart body or a body that did not go in as JSON take the
/// direct route; everything else goes through the pipeline. A body goes in
/// as JSON when it is not multipart and parses as JSON.
pub open spec fn exec_route_of(dry_run: bool, preview: bool, paginate: bool, multipart: bool, has_body: bool, body_is_json: bool) -> ExecRoute {
    let consumed = !multipart && has_body && body_is_json;
    if dry_run {
        ExecRoute::DryRun
    } else if preview {
        ExecRoute::Preview
    } else if paginate || multipart || (has_body && !consumed) {
        ExecRoute::Direct
    } else {
        ExecRoute::Pipeline
    }
}

/// A response body as JSON: the value its bytes parse to, else its text
/// (invalid UTF-8 replaced) as a JSON string.
pub open spec fn body_value(b: Seq<u8>) -> JsonV {
    match json::json_parsed_bytes(b) {
        Ok(j) => j,
        Err(_) => JsonV::Str(crate::discover::utf8_lossy_of(b)),
    }
}

/// Read a response body (see `body_value`).
pub fn response_value(b: &[u8]) -> (r: Json)
    ensures
        r@ == body_value(b@),
{
    match json::parse_json_bytes(b) {
        Ok(j) => j,
        Err(_) => Json::Str(crate::discover::utf8_lossy(b)),
    }
}

/// Whether a response is recorded for the next pipe or chain stage: only a
/// 2xx one.
pub open spec fn records_response(status: u16) -> bool {
    200 <= status < 300
}

/// Whether a response is recorded for the next stage (see
/// `records_response`).
pub fn records_for_next_stage(status: u16) -> (b: bool)
    ensures
        b == records_response(status),
{
    200 <= status && status < 300
}

/// The route of an operation's request (see `exec_route_of`).
pub fn exec_route(dry_run: bool, preview: bool, paginate: bool, multipart: bool, has_body: bool, body_is_json: bool) -> (r: ExecRoute)
    ensures
        r == exec_route_of(dry_run, preview, paginate, multipart, has_body, body_is_json),
{
    let consumed = !multipart && has_body && body_is_json;
    if dry_run {
        ExecRoute::DryRun
    } else if preview {
        ExecRoute::Preview
    } else if paginate || multipart || (has_body && !consumed) {
        ExecRoute::Direct
    } else {
        ExecRoute::Pipeline
    }
}

/// Puts a raw body into the arguments when it is not multipart: an explicit
/// content type becomes the `Content-Type` header (whatever the body), and
/// a body whose bytes parse as JSON becomes the JSON body. Returns whether
/// the body went in as JSON.
pub fn apply_raw_body(args: &mut ProgrammaticArgs, multipart: bool, body: Option<&[u8]>, content_type: Option<String>) -> (consumed: bool)
    requires
        strmap::keys_sorted(order::pair_views(old(args).header@)),
    ensures
        consumed == (!multipart && body is Some && json::json_parsed_bytes(body.unwrap()@) is Ok),
        final(args).args_view().header == (if !multipart && body is Some && content_type is Some {
            strmap::put(old(args).args_view().header, "Content-Type"@, content_type.unwrap()@)
        } else {
            old(args).args_view().header
        }),
        final(args).args_view().body == (if consumed {
            Some(json::json_parsed_bytes(body.unwrap()@)->Ok_0)
        } else {
            old(args).args_view().body
        }),
        final(args).path == old(args).path,
        final(args).query == old(args).query,
        final(args).query_extras == old(args).query_extras,
        final(args).cookie == old(args).cookie,
        final(args).auth_override == old(args).auth_override,
        final(args).server_override == old(args).server_override,
        final(args).http == old(args).http,
        final(args).retry_count == old(args).retry_count,
        final(args).retry_max_wait_secs == old(args).retry_max_wait_secs,
{
    if multipart || body.is_none() {
        return false;
    }
    let bytes = body.unwrap();
    if let Some(ct) = content_type {
        strmap::map_insert(&mut args.header, "Content-Type".to_owned(), ct);
    }
    match json::parse_json_bytes(bytes) {
        Ok(j) => {
            args.body = Some(j);
            true
        },
        Err(_) => false,
    }
}


/// Setting pairs in turn keeps a sorted map sorted.
proof fn lemma_put_pairs_sorted(h: PairSeq, pairs: PairSeq)
    requires
        strmap::keys_sorted(h),
    ensures
        strmap::keys_sorted(put_pairs(h, pairs)),
    decreases pairs.len(),
{
    if pairs.len() > 0 {
        lemma_put_pairs_sorted(h, pairs.drop_last());
        strmap::lemma_put(put_pairs(h, pairs.drop_last()), pairs.last().0, pairs.last().1);
    }
}

/// A `--spall-header` flag wins: after the arguments are built, the header
/// named by the last such flag holds that flag's value, whatever the
/// operation's header parameters said.
pub proof fn law_header_flag_wins(params: Seq<crate::ir::ParamInfo>, values: Seq<Option<String>>, flags: Seq<Seq<char>>)
    requires
        crate::http::header_flag_pairs(flags).len() > 0,
    ensures
        ({
            let last = crate::http::header_flag_pairs(flags).last();
            strmap::lookup(args_of_flags(params, values, flags).header, last.0) == Some(last.1)
        }),
{
    let hp = crate::http::header_flag_pairs(flags);
    let a = routed_args(params, values, params.len());
    lemma_routed_wf(params, values, params.len());
    lemma_put_pairs_sorted(a.header, hp.drop_last());
    strmap::lemma_put(put_pairs(a.header, hp.drop_last()), hp.last().0, hp.last().1);
}


/// What `--spall-follow <rel>` does after the primary response.
pub enum FollowPlan {
    /// Nothing to follow: no relation was asked for, or the response failed.
    Stay,
    /// The response has no link with that relation.
    Missing,
    /// Fetch this URL; its body replaces the primary one.
    Follow(String),
}

/// `FollowPlan` with its URL as a character sequence.
pub enum FollowPlanV {
    Stay,
    Missing,
    Follow(Seq<char>),
}

/// The view of a `FollowPlan`.
pub open spec fn follow_view(p: FollowPlan) -> FollowPlanV {
    match p {
        FollowPlan::Stay => FollowPlanV::Stay,
        FollowPlan::Missing => FollowPlanV::Missing,
        FollowPlan::Follow(u) => FollowPlanV::Follow(u@),
    }
}

/// What following a relation does: only from a 2xx response, the first
/// link with that relation (from the `Link` header, then an object or array
/// body's HAL, JSON:API or Siren links) is resolved against the request
/// URL; `None` when it cannot be.
pub open spec fn follow_plan_of(status: u16, rel: Option<Seq<char>>, current: Seq<char>, link_header: Option<Seq<char>>, body: JsonV) -> Option<FollowPlanV> {
    if !(200 <= status < 300) || rel is None {
        Some(FollowPlanV::Stay)
    } else {
        let b = match body {
            JsonV::Object(_) => Some(body),
            JsonV::Array(_) => Some(body),
            _ => None,
        };
        let ls = crate::links::response_links(link_header, b);
        match crate::links::first_rel(ls, rel.unwrap()) {
            None => Some(FollowPlanV::Missing),
            Some(k) => match next_url_of(current, ls[k].1) {
                Some(u) => Some(FollowPlanV::Follow(u)),
                None => None,
            },
        }
    }
}

/// What following a relation does (see `follow_plan_of`); a link that
/// cannot be resolved is the network error of `resolve_next_url`.
pub fn follow_plan(status: u16, rel: Option<&str>, current: &str, link_header: Option<&str>, body: &Json) -> (r: Result<FollowPlan, crate::error::SpallCliError>)
    ensures
        match r {
            Ok(p) => follow_plan_of(status, match rel { Some(x) => Some(x@), None => None }, current@,
                match link_header { Some(l) => Some(l@), None => None }, body@) == Some(follow_view(p)),
            Err(e) => e is Network && follow_plan_of(status, match rel { Some(x) => Some(x@), None => None }, current@,
                match link_header { Some(l) => Some(l@), None => None }, body@) is None,
        },
{
    let name = match rel {
        Some(x) => x,
        None => return Ok(FollowPlan::Stay),
    };
    if !(200 <= status && status < 300) {
        return Ok(FollowPlan::Stay);
    }
    let structured = match body {
        Json::Object(_) => true,
        Json::Array(_) => true,
        _ => false,
    };
    let b: Option<&Json> = if structured { Some(body) } else { None };
    let links = crate::links::Links::from_response(link_header, b);
    match links.rel(name) {
        None => Ok(FollowPlan::Missing),
        Some(link) => {
            proof {
                crate::links::lemma_first_rel(links.view(), name@);
            }
            let u = resolve_next_url(current, link.href.as_str())?;
            Ok(FollowPlan::Follow(u))
        },
    }
}


/// The decision after a response with `status` and `retry_after`.
pub open spec fn response_action(attempt: nat, max_attempts: nat, status: u16, retry_after: Option<u64>, max_wait_secs: u64) -> SendAction {
    send_action(attempt, max_attempts, (SendEvent::Response { status: status, retry_after_secs: retry_after }), max_wait_secs)
}

/// Whether a delay is usable: given and at most the cap.
pub open spec fn usable_delay(retry_after: Option<u64>, max_wait_secs: u64) -> bool {
    retry_after matches Some(w) && w <= max_wait_secs
}

/// A 503 is retried exactly as a 429 is: with a usable `Retry-After` of at
/// most the wait cap and attempts left, the request is sent again after
/// that many seconds; any status other than these two is handed back, as
/// is a retryable one when no attempt is left or the delay is missing or
/// too long.
pub proof fn law_busy_statuses_are_retried(attempt: nat, max_attempts: nat, status: u16, retry_after: Option<u64>, max_wait_secs: u64)
    requires
        max_wait_secs <= u64::MAX / 1000,
    ensures
        response_action(attempt, max_attempts, 503, retry_after, max_wait_secs)
            == response_action(attempt, max_attempts, 429, retry_after, max_wait_secs),
        ((status == 429 || status == 503) && attempt + 1 < max_attempts && usable_delay(retry_after, max_wait_secs))
            ==> (response_action(attempt, max_attempts, status, retry_after, max_wait_secs)
                == (SendAction::Retry { wait_ms: (retry_after.unwrap() * 1000) as u64 })),
        ((status == 429 || status == 503) && usable_delay(retry_after, max_wait_secs))
            ==> (retry_after.unwrap() * 1000 <= u64::MAX),
        (!(status == 429 || status == 503) || attempt + 1 >= max_attempts || !usable_delay(retry_after, max_wait_secs))
            ==> (response_action(attempt, max_attempts, status, retry_after, max_wait_secs) == SendAction::Return),
{
    if let Some(w) = retry_after {
        if w <= max_wait_secs {
            assert(w * 1000 <= max_wait_secs * 1000) by (nonlinear_arith)
                requires
                    w <= max_wait_secs,
            ;
        }
    }
}

} // verus!
