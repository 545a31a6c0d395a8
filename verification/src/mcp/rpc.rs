//! The JSON-RPC side of the MCP server: which method a frame asks for,
//! what it is answered, and the reply envelopes.

use vstd::prelude::*;
use crate::json::{self, Json, JsonV};
use crate::http::VERSION;
use crate::mcp::tools::{self, Members, ToolEntry};

verus! {

/// The protocol version the server advertises.
pub const PROTOCOL_VERSION: &'static str = "2025-06-18";
/// JSON-RPC error code: method not found.
pub const ERR_METHOD_NOT_FOUND: i32 = -32601;
/// JSON-RPC error code: invalid params.
pub const ERR_INVALID_PARAMS: i32 = -32602;
/// JSON-RPC error code: parse error.
pub const ERR_PARSE: i32 = -32700;
/// Tool count past which clients are known to truncate `tools/list`.
pub const MAX_TOOL_COUNT_HINT: usize = 100;
/// How many tag buckets the over-cap warning names.
pub const WARNING_TAG_HISTOGRAM_TOP_N: usize = 5;

/// What a JSON-RPC frame is answered with.
pub enum Route {
    /// `initialize`: the server's capabilities.
    Initialize,
    /// A notification the server takes note of without replying.
    NoReply,
    /// `ping`: an empty result.
    Ping,
    /// `tools/list`.
    ToolsList,
    /// `tools/call`.
    ToolsCall,
    /// No `method` at all: an invalid-params error.
    MissingMethod,
    /// An unknown method with an `id`: a method-not-found error naming it.
    UnknownMethod(String),
}

/// The route for a frame's method (`""` when it has none) and whether it
/// carries an `id`.
pub open spec fn route_of(method: Seq<char>, has_id: bool) -> Route {
    if method == "initialize"@ {
        Route::Initialize
    } else if method == "notifications/initialized"@ || method == "notifications/cancelled"@ {
        Route::NoReply
    } else if method == "ping"@ {
        Route::Ping
    } else if method == "tools/list"@ {
        Route::ToolsList
    } else if method == "tools/call"@ {
        Route::ToolsCall
    } else if method.len() == 0 {
        Route::MissingMethod
    } else if has_id {
        Route::UnknownMethod(arbitrary())
    } else {
        Route::NoReply
    }
}

/// Pick the route of a frame.
pub fn route(method: &str, has_id: bool) -> (r: Route)
    ensures
        match r {
            Route::UnknownMethod(m) => route_of(method@, has_id) is UnknownMethod && m@ == method@,
            _ => r == route_of(method@, has_id),
        },
{
    let eq = crate::json::str_eq;
    if eq(method, "initialize") {
        Route::Initialize
    } else if eq(method, "notifications/initialized") || eq(method, "notifications/cancelled") {
        Route::NoReply
    } else if eq(method, "ping") {
        Route::Ping
    } else if eq(method, "tools/list") {
        Route::ToolsList
    } else if eq(method, "tools/call") {
        Route::ToolsCall
    } else if method.is_empty() {
        Route::MissingMethod
    } else if has_id {
        Route::UnknownMethod(method.to_owned())
    } else {
        Route::NoReply
    }
}

/// A JSON string value.
pub open spec fn jstr(s: Seq<char>) -> JsonV {
    JsonV::Str(s)
}

/// The envelope of a successful reply.
pub open spec fn result_envelope(id: Option<JsonV>, result: JsonV) -> JsonV {
    JsonV::Object(seq![
        ("jsonrpc"@, jstr("2.0"@)),
        ("id"@, match id { Some(i) => i, None => JsonV::Null }),
        ("result"@, result),
    ])
}

/// The envelope of an error reply.
pub open spec fn error_envelope(id: JsonV, code: i32, message: Seq<char>) -> JsonV {
    JsonV::Object(seq![
        ("jsonrpc"@, jstr("2.0"@)),
        ("id"@, id),
        ("error"@, JsonV::Object(seq![
            ("code"@, JsonV::Number(int_text(code as int))),
            ("message"@, jstr(message)),
        ])),
    ])
}

/// The decimal text of an integer.
pub open spec fn int_text(n: int) -> Seq<char> {
    if n < 0 { seq!['-'] + crate::text::dec((-n) as nat) } else { crate::text::dec(n as nat) }
}

/// The decimal text of an `i32`.
fn int_string(n: i32) -> (r: String)
    ensures
        r@ == int_text(n as int),
{
    if n < 0 {
        proof {
            reveal_strlit("-");
        }
        let mut s = String::from_str("-");
        let m: i64 = -(n as i64);
        crate::text::push_dec(&mut s, m as u128);
        proof {
            assert(s@ =~= seq!['-'] + crate::text::dec((-(n as int)) as nat));
        }
        s
    } else {
        crate::text::dec_string(n as u128)
    }
}

/// A `(name, value)` member.
fn member(name: &str, v: Json) -> (r: (String, Json))
    ensures
        r.0@ == name@,
        r.1@ == v@,
{
    (name.to_owned(), v)
}

/// Builds an object from three members.
fn object3(a: (String, Json), b: (String, Json), c: (String, Json)) -> (r: Json)
    ensures
        r@ == JsonV::Object(seq![(a.0@, a.1@), (b.0@, b.1@), (c.0@, c.1@)]),
{
    let mut m: Vec<(String, Json)> = Vec::new();
    m.push(a);
    m.push(b);
    m.push(c);
    proof {
        json::lemma_jv_members(m@);
        assert(json::jv_members(m@) =~= seq![(m@[0].0@, m@[0].1@), (m@[1].0@, m@[1].1@), (m@[2].0@, m@[2].1@)]);
    }
    Json::Object(m)
}

/// Builds an object from two members.
fn object2(a: (String, Json), b: (String, Json)) -> (r: Json)
    ensures
        r@ == JsonV::Object(seq![(a.0@, a.1@), (b.0@, b.1@)]),
{
    let mut m: Vec<(String, Json)> = Vec::new();
    m.push(a);
    m.push(b);
    proof {
        json::lemma_jv_members(m@);
        assert(json::jv_members(m@) =~= seq![(m@[0].0@, m@[0].1@), (m@[1].0@, m@[1].1@)]);
    }
    Json::Object(m)
}

/// The reply for a successful call.
pub fn rpc_result(id: Option<Json>, result: Json) -> (r: Json)
    ensures
        r@ == result_envelope(crate::mcp::schema::opt_json(id), result@),
{
    let ghost oid = crate::mcp::schema::opt_json(id);
    let idv = match id {
        Some(i) => i,
        None => Json::Null,
    };
    proof {
        assert(idv@ == match oid { Some(i) => i, None => JsonV::Null });
    }
    let a = member("jsonrpc", Json::Str(String::from_str("2.0")));
    let b = member("id", idv);
    let c = member("result", result);
    let r = object3(a, b, c);
    proof {
        assert(a.1@ == jstr("2.0"@));
        assert(a.0@ == "jsonrpc"@);
        assert(b.0@ == "id"@);
        assert(b.1@ == match oid { Some(i) => i, None => JsonV::Null });
        assert(c.0@ == "result"@);
        assert(c.1@ == result@);
        assert(seq![(a.0@, a.1@), (b.0@, b.1@), (c.0@, c.1@)] =~= seq![
            ("jsonrpc"@, jstr("2.0"@)),
            ("id"@, match oid { Some(i) => i, None => JsonV::Null }),
            ("result"@, result@),
        ]);
        assert(r@ == result_envelope(oid, result@));
    }
    r
}

/// The reply for a failed call.
pub fn rpc_error(id: Json, code: i32, message: &str) -> (r: Json)
    ensures
        r@ == error_envelope(id@, code, message@),
{
    let err = object2(
        member("code", Json::Number(int_string(code))),
        member("message", Json::Str(message.to_owned())),
    );
    object3(member("jsonrpc", Json::Str(String::from_str("2.0"))), member("id", id), member("error", err))
}

/// A `tools/call` result reporting `text`, flagged as an error or not.
pub open spec fn tool_text_result(text: Seq<char>, is_error: bool) -> JsonV {
    JsonV::Object(seq![
        ("content"@, JsonV::Array(seq![JsonV::Object(seq![("type"@, jstr("text"@)), ("text"@, jstr(text))])])),
        ("isError"@, JsonV::Bool(is_error)),
    ])
}

/// A `tools/call` result carrying `text`.
pub fn tool_result(text: &str, is_error: bool) -> (r: Json)
    ensures
        r@ == tool_text_result(text@, is_error),
{
    let item = object2(member("type", Json::Str(String::from_str("text"))), member("text", Json::Str(text.to_owned())));
    let mut content: Vec<Json> = Vec::new();
    content.push(item);
    proof {
        json::lemma_jv_items(content@);
        assert(json::jv_items(content@) =~= seq![content@[0]@]);
    }
    object2(member("content", Json::Array(content)), member("isError", Json::Bool(is_error)))
}

/// A `tools/call` error result.
pub fn tool_error(message: &str) -> (r: Json)
    ensures
        r@ == tool_text_result(message@, true),
{
    tool_result(message, true)
}

/// The `initialize` result: protocol version, tool capability and server info.
pub open spec fn initialize_result() -> JsonV {
    JsonV::Object(seq![
        ("protocolVersion"@, jstr(PROTOCOL_VERSION@)),
        ("capabilities"@, JsonV::Object(seq![("tools"@, JsonV::Object(seq![("listChanged"@, JsonV::Bool(false))]))])),
        ("serverInfo"@, JsonV::Object(seq![("name"@, jstr("spall"@)), ("version"@, jstr(VERSION@))])),
    ])
}

/// The `initialize` result.
pub fn handle_initialize() -> (r: Json)
    ensures
        r@ == initialize_result(),
{
    let mut caps_inner: Vec<(String, Json)> = Vec::new();
    caps_inner.push(member("listChanged", Json::Bool(false)));
    let mut caps: Vec<(String, Json)> = Vec::new();
    caps.push(member("tools", Json::Object(caps_inner)));
    proof {
        json::lemma_jv_members(caps_inner@);
        json::lemma_jv_members(caps@);
        assert(json::jv_members(caps_inner@) =~= seq![("listChanged"@, JsonV::Bool(false))]);
        assert(json::jv_members(caps@) =~= seq![("tools"@, JsonV::Object(seq![("listChanged"@, JsonV::Bool(false))]))]);
    }
    let info = object2(member("name", Json::Str(String::from_str("spall"))), member("version", Json::Str(VERSION.to_owned())));
    object3(
        member("protocolVersion", Json::Str(PROTOCOL_VERSION.to_owned())),
        member("capabilities", Json::Object(caps)),
        member("serverInfo", info),
    )
}

/// The tags of an operation as JSON strings.
pub open spec fn tag_values(tags: Seq<String>) -> Seq<JsonV> {
    tags.map_values(|t: String| JsonV::Str(t@))
}

/// One `tools/list` entry.
pub open spec fn tool_listing(name: Seq<char>, e: tools::ToolView, tags: Seq<JsonV>) -> JsonV {
    JsonV::Object(seq![
        ("name"@, jstr(name)),
        ("description"@, jstr(e.description)),
        ("inputSchema"@, e.input_schema),
        ("annotations"@, e.annotations),
        ("_meta"@, JsonV::Object(seq![("spall.tags"@, JsonV::Array(tags))])),
    ])
}

/// The `tools/list` result for a registry over `ops`.
pub open spec fn tools_list_result(reg: Seq<tools::ToolView>, ops: Seq<crate::ir::OperationInfo>) -> JsonV {
    JsonV::Object(seq![("tools"@, JsonV::Array(reg.map_values(|e: tools::ToolView| tool_listing(e.name, e,
        if 0 <= e.op_index < ops.len() { tag_values(ops[e.op_index].tags@) } else { seq![] }))))])
}

/// The tags of an operation as JSON strings.
fn tag_jsons(tags: &Vec<String>) -> (r: Vec<Json>)
    ensures
        json::jv_items(r@) == tag_values(tags@),
{
    let mut out: Vec<Json> = Vec::new();
    let mut t: usize = 0;
    while t < tags.len()
        invariant
            t <= tags.len(),
            out@.len() == t,
            forall|k: int| 0 <= k < t ==> #[trigger] out@[k]@ == JsonV::Str(tags@[k]@),
        decreases tags.len() - t,
    {
        out.push(Json::Str(tags[t].clone()));
        t = t + 1;
    }
    proof {
        json::lemma_jv_items(out@);
        assert forall|k: int| 0 <= k < tags@.len() implies json::jv_items(out@)[k] == tag_values(tags@)[k] by {
            assert(out@[k]@ == JsonV::Str(tags@[k]@));
        }
        assert(json::jv_items(out@) =~= tag_values(tags@));
    }
    out
}

/// One `tools/list` entry.
fn listing_of(name: &String, entry: &ToolEntry, ops: &Vec<crate::ir::OperationInfo>) -> (r: Json)
    ensures
        r@ == tool_listing(name@, tools::tool_view((*name, *entry)),
            if 0 <= entry.op_index < ops@.len() { tag_values(ops@[entry.op_index as int].tags@) } else { seq![] }),
{
    let tags = if entry.op_index < ops.len() {
        tag_jsons(&ops[entry.op_index].tags)
    } else {
        let v: Vec<Json> = Vec::new();
        proof {
            json::lemma_jv_items(v@);
            assert(json::jv_items(v@) =~= Seq::<JsonV>::empty());
        }
        v
    };
    let mut meta: Vec<(String, Json)> = Vec::new();
    meta.push(member("spall.tags", Json::Array(tags)));
    proof {
        json::lemma_jv_members(meta@);
        assert(json::jv_members(meta@) =~= seq![(meta@[0].0@, meta@[0].1@)]);
    }
    let mut m: Vec<(String, Json)> = Vec::new();
    m.push(member("name", Json::Str(name.clone())));
    m.push(member("description", Json::Str(entry.description.clone())));
    m.push(member("inputSchema", json::copy_json(&entry.input_schema)));
    m.push(member("annotations", json::copy_json(&entry.annotations)));
    m.push(member("_meta", Json::Object(meta)));
    proof {
        json::lemma_jv_members(m@);
        assert(json::jv_members(m@) =~= seq![(m@[0].0@, m@[0].1@), (m@[1].0@, m@[1].1@), (m@[2].0@, m@[2].1@),
            (m@[3].0@, m@[3].1@), (m@[4].0@, m@[4].1@)]);
    }
    Json::Object(m)
}

/// The `tools/list` result.
pub fn handle_tools_list(ops: &Vec<crate::ir::OperationInfo>, registry: &tools::ToolRegistry) -> (r: Json)
    ensures
        r@ == tools_list_result(tools::registry_entries(*registry), ops@),
{
    let ghost rv = tools::registry_entries(*registry);
    let n = tools::registry_len(registry);
    let mut tools_out: Vec<Json> = Vec::new();
    let mut i: usize = 0;
    while i < n
        invariant
            i <= n == rv.len(),
            rv == tools::registry_entries(*registry),
            tools_out@.len() == i,
            forall|k: int| 0 <= k < i ==> #[trigger] tools_out@[k]@ == tool_listing(rv[k].name, rv[k],
                if 0 <= rv[k].op_index < ops@.len() { tag_values(ops@[rv[k].op_index].tags@) } else { seq![] }),
        decreases n - i,
    {
        let (name, entry) = tools::registry_at(registry, i);
        let l = listing_of(name, entry, ops);
        tools_out.push(l);
        i = i + 1;
    }
    proof {
        json::lemma_jv_items(tools_out@);
    }
    let mut top: Vec<(String, Json)> = Vec::new();
    top.push(member("tools", Json::Array(tools_out)));
    proof {
        json::lemma_jv_members(top@);
        assert forall|k: int| 0 <= k < rv.len() implies json::jv_items(tools_out@)[k] == rv.map_values(|e: tools::ToolView| tool_listing(e.name, e,
            if 0 <= e.op_index < ops@.len() { tag_values(ops@[e.op_index].tags@) } else { seq![] }))[k] by {
            assert(tools_out@[k]@ == json::jv(tools_out@[k]));
        }
        assert(json::jv_items(tools_out@) =~= rv.map_values(|e: tools::ToolView| tool_listing(e.name, e,
            if 0 <= e.op_index < ops@.len() { tag_values(ops@[e.op_index].tags@) } else { seq![] })));
        assert(json::jv_members(top@) =~= seq![("tools"@, JsonV::Array(json::jv_items(tools_out@)))]);
    }
    Json::Object(top)
}


/// What a `tools/call` request leads to before anything is sent: the
/// position of the tool's operation, the request arguments built from the
/// call's `arguments` (none counts as `null`) and the tool's auth profile;
/// or the message of the tool error answered at once (no tool name, an
/// unknown tool, an operation out of range, arguments that do not fit).
pub open spec fn tools_call_of(
    params: JsonV,
    reg: Seq<tools::ToolView>,
    ops: Seq<crate::ir::OperationInfo>,
) -> Result<(int, crate::execute::ArgsView, Option<Seq<char>>), Seq<char>> {
    match params.get("name"@) {
        Some(JsonV::Str(name)) => match tools::entry_position(reg, name) {
            None => Err("unknown tool: "@ + name),
            Some(t) => {
                let e = reg[t];
                if e.op_index >= ops.len() {
                    Err("internal: operation index out of range"@)
                } else {
                    let arguments = match params.get("arguments"@) {
                        Some(a) => a,
                        None => JsonV::Null,
                    };
                    let op = ops[e.op_index];
                    match crate::mcp::args::programmatic_args(op.parameters@, op.request_body is Some, arguments) {
                        Ok(a) => Ok((e.op_index, a, e.auth_profile)),
                        Err(m) => Err(m),
                    }
                }
            },
        },
        _ => Err("missing 'name' in tools/call params"@),
    }
}

/// `entry_position` finds an entry with that name.
proof fn lemma_entry_position(reg: Seq<tools::ToolView>, name: Seq<char>)
    ensures
        tools::entry_position(reg, name) matches Some(i) ==> 0 <= i < reg.len() && reg[i].name == name,
    decreases reg.len(),
{
    if reg.len() > 0 {
        lemma_entry_position(reg.drop_first(), name);
    }
}

/// What a `tools/call` request leads to before anything is sent (see
/// `tools_call_of`); a refusal comes back as the tool error to answer.
pub fn tools_call_plan(
    params: &Json,
    registry: &tools::ToolRegistry,
    ops: &Vec<crate::ir::OperationInfo>,
) -> (r: Result<(usize, crate::execute::ProgrammaticArgs, Option<String>), Json>)
    ensures
        match (r, tools_call_of(params@, tools::registry_entries(*registry), ops@)) {
            (Ok((k, a, p)), Ok((j, v, q))) => k as int == j && k < ops.len() && a.args_view() == v
                && (match p { Some(x) => Some(x@), None => None }) == q
                && a.auth_override is None && a.server_override is None,
            (Err(j), Err(m)) => j@ == tool_text_result(m, true),
            _ => false,
        },
{
    let name: &str = match params.get("name") {
        Some(Json::Str(n)) => n.as_str(),
        _ => return Err(tool_error("missing 'name' in tools/call params")),
    };
    let t = match tools::registry_position(registry, name) {
        Some(t) => t,
        None => {
            let mut m = "unknown tool: ".to_owned();
            m.append(name);
            return Err(tool_error(m.as_str()));
        },
    };
    proof {
        lemma_entry_position(tools::registry_entries(*registry), name@);
    }
    let entry = tools::registry_at(registry, t).1;
    if entry.op_index >= ops.len() {
        return Err(tool_error("internal: operation index out of range"));
    }
    let null = Json::Null;
    let arguments: &Json = match params.get("arguments") {
        Some(a) => a,
        None => &null,
    };
    match crate::mcp::args::build_programmatic_args(&ops[entry.op_index], arguments) {
        Ok(a) => Ok((entry.op_index, a, entry.auth_profile.clone())),
        Err(e) => Err(tool_error(e.as_str())),
    }
}


/// The `tools/call` result of a request that was answered: the response
/// body's text, marked as an error for a status of 400 or more.
pub fn call_result(status: u16, body_text: &str) -> (r: Json)
    ensures
        r@ == tool_text_result(body_text@, status >= 400),
{
    tool_result(body_text, status >= 400)
}

/// What a JSON-RPC line leads to.
pub enum LineStep {
    /// Answer with this frame.
    Reply(Json),
    /// A notification: no answer.
    NoReply,
    /// `tools/call` with the request's `id` and `params` (`null` when
    /// absent): the call is carried out, then answered.
    Call(Option<Json>, Json),
}

/// What a line leads to, as plain values.
pub enum LineStepV {
    Reply(JsonV),
    NoReply,
    Call(Option<JsonV>, JsonV),
}

/// The view of a line step.
pub open spec fn line_step_view(s: LineStep) -> LineStepV {
    match s {
        LineStep::Reply(j) => LineStepV::Reply(j@),
        LineStep::NoReply => LineStepV::NoReply,
        LineStep::Call(id, p) => LineStepV::Call(crate::mcp::schema::opt_json(id), p@),
    }
}

/// A frame's `method`, or `""` when it has no string method.
pub open spec fn method_of(m: JsonV) -> Seq<char> {
    match m.get("method"@) {
        Some(JsonV::Str(s)) => s,
        _ => seq![],
    }
}

/// What a parsed frame leads to: `initialize`, `ping` and `tools/list` are
/// answered at once, `tools/call` is carried out, notifications get no
/// answer, a frame without a method gets an invalid-params error and an
/// unknown method with an `id` a method-not-found error.
pub open spec fn message_step_of(m: JsonV, reg: Seq<tools::ToolView>, ops: Seq<crate::ir::OperationInfo>) -> LineStepV {
    let id = m.get("id"@);
    match route_of(method_of(m), id is Some) {
        Route::Initialize => LineStepV::Reply(result_envelope(id, initialize_result())),
        Route::NoReply => LineStepV::NoReply,
        Route::Ping => LineStepV::Reply(result_envelope(id, JsonV::Object(seq![]))),
        Route::ToolsList => LineStepV::Reply(result_envelope(id, tools_list_result(reg, ops))),
        Route::ToolsCall => LineStepV::Call(id, match m.get("params"@) {
            Some(p) => p,
            None => JsonV::Null,
        }),
        Route::MissingMethod => LineStepV::Reply(error_envelope(match id {
            Some(i) => i,
            None => JsonV::Null,
        }, ERR_INVALID_PARAMS, "missing method"@)),
        Route::UnknownMethod(_) => LineStepV::Reply(error_envelope(match id {
            Some(i) => i,
            None => JsonV::Null,
        }, ERR_METHOD_NOT_FOUND, "unknown method: "@ + method_of(m))),
    }
}

/// What a JSON-RPC line leads to: text that is not JSON is answered with a
/// parse error (and a `null` id); a frame as `message_step_of` says.
pub open spec fn line_step_of(line: Seq<char>, reg: Seq<tools::ToolView>, ops: Seq<crate::ir::OperationInfo>) -> LineStepV {
    match crate::json::json_parsed(line) {
        Err(_) => LineStepV::Reply(error_envelope(JsonV::Null, ERR_PARSE, "Parse error"@)),
        Ok(m) => message_step_of(m, reg, ops),
    }
}

/// A copy of an optional member.
fn opt_copy(o: Option<&Json>) -> (r: Option<Json>)
    ensures
        crate::mcp::schema::opt_json(r) == match o {
            Some(j) => Some(j@),
            None => None::<JsonV>,
        },
{
    match o {
        Some(j) => Some(json::copy_json(j)),
        None => None,
    }
}

/// Decide what a parsed frame leads to (see `message_step_of`).
pub fn message_step(msg: &Json, ops: &Vec<crate::ir::OperationInfo>, registry: &tools::ToolRegistry) -> (r: LineStep)
    ensures
        line_step_view(r) == message_step_of(msg@, tools::registry_entries(*registry), ops@),
{
    let method: &str = match msg.get("method") {
        Some(Json::Str(m)) => m.as_str(),
        _ => "",
    };
    proof {
        reveal_strlit("");
        assert(method@ == method_of(msg@));
    }
    let id = opt_copy(msg.get("id"));
    let ghost idv = msg@.get("id"@);
    assert(crate::mcp::schema::opt_json(id) == idv);
    match route(method, id.is_some()) {
        Route::Initialize => LineStep::Reply(rpc_result(id, handle_initialize())),
        Route::NoReply => LineStep::NoReply,
        Route::Ping => {
            let empty: Vec<(String, Json)> = Vec::new();
            proof {
                json::lemma_jv_members(empty@);
                assert(json::jv_members(empty@) =~= Seq::<(Seq<char>, JsonV)>::empty());
            }
            LineStep::Reply(rpc_result(id, Json::Object(empty)))
        },
        Route::ToolsList => LineStep::Reply(rpc_result(id, handle_tools_list(ops, registry))),
        Route::ToolsCall => {
            let params = match msg.get("params") {
                Some(p) => json::copy_json(p),
                None => Json::Null,
            };
            LineStep::Call(id, params)
        },
        Route::MissingMethod => {
            let i = match id {
                Some(i) => i,
                None => Json::Null,
            };
            LineStep::Reply(rpc_error(i, ERR_INVALID_PARAMS, "missing method"))
        },
        Route::UnknownMethod(m) => {
            let i = match id {
                Some(i) => i,
                None => Json::Null,
            };
            let mut text = String::from_str("unknown method: ");
            text.append(m.as_str());
            LineStep::Reply(rpc_error(i, ERR_METHOD_NOT_FOUND, text.as_str()))
        },
    }
}

/// Decide what a JSON-RPC line leads to (see `line_step_of`).
pub fn line_step(line: &str, ops: &Vec<crate::ir::OperationInfo>, registry: &tools::ToolRegistry) -> (r: LineStep)
    ensures
        line_step_view(r) == line_step_of(line@, tools::registry_entries(*registry), ops@),
{
    match json::parse_json(line) {
        Ok(msg) => message_step(&msg, ops, registry),
        Err(_) => LineStep::Reply(rpc_error(Json::Null, ERR_PARSE, "Parse error")),
    }
}

} // verus!
