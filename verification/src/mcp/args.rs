//! Routing the arguments of an MCP `tools/call` to the request slots of
//! the operation: path, query, header and cookie parameters, the body, and
//! the expansion of array values by the parameter's OpenAPI style.

use vstd::prelude::*;
use crate::json::{self, Json, JsonV};
use crate::ir::{OperationInfo, ParamInfo, ParameterLocation};
use crate::execute::{self, ArgsView, ProgrammaticArgs};
use crate::order::{self, PairSeq};
use crate::strmap;
use crate::mcp::tools;

verus! {

broadcast use crate::json::lemma_jv_items, crate::json::lemma_jv_members;

/// The text a JSON scalar stands for in a request: strings as they are,
/// `true`/`false`, the number's text, nothing for `null`, and compact JSON
/// for arrays and objects.
pub open spec fn scalar_text(v: JsonV) -> Seq<char> {
    match v {
        JsonV::Str(s) => s,
        JsonV::Bool(b) => if b { "true"@ } else { "false"@ },
        JsonV::Number(n) => n,
        JsonV::Null => seq![],
        _ => json::json_text(v),
    }
}

/// The scalar texts of `items`, joined with commas.
pub open spec fn joined_scalars(items: Seq<JsonV>) -> Seq<char>
    decreases items.len(),
{
    if items.len() == 0 {
        seq![]
    } else if items.len() == 1 {
        scalar_text(items[0])
    } else {
        joined_scalars(items.drop_last()) + ","@ + scalar_text(items.last())
    }
}

/// One `(name, text)` query pair per array item.
pub open spec fn exploded(name: Seq<char>, items: Seq<JsonV>) -> PairSeq {
    items.map_values(|x: JsonV| (name, scalar_text(x)))
}

/// Sets `name` to `text` in the bucket of `loc`.
pub open spec fn put_at(a: ArgsView, loc: ParameterLocation, name: Seq<char>, text: Seq<char>) -> ArgsView {
    match loc {
        ParameterLocation::Path => ArgsView { path: strmap::put(a.path, name, text), ..a },
        ParameterLocation::Query => ArgsView { query: strmap::put(a.query, name, text), ..a },
        ParameterLocation::Header => ArgsView { header: strmap::put(a.header, name, text), ..a },
        ParameterLocation::Cookie => ArgsView { cookie: strmap::put(a.cookie, name, text), ..a },
    }
}

/// Where one argument lands. An array for a query parameter whose style
/// explodes (OpenAPI's `form` default) becomes repeated query pairs; any
/// other array is comma-joined; a scalar is written as its text.
pub open spec fn place(a: ArgsView, p: ParamInfo, name: Seq<char>, v: JsonV) -> ArgsView {
    match v {
        JsonV::Array(items) => {
            if p.location == ParameterLocation::Query && tools::explode_default(p.style@, p.explode, true) {
                ArgsView { query_extras: a.query_extras + exploded(name, items), ..a }
            } else {
                put_at(a, p.location, name, joined_scalars(items))
            }
        },
        _ => put_at(a, p.location, name, scalar_text(v)),
    }
}

/// The last declared parameter called `k`.
pub open spec fn last_param_named(params: Seq<ParamInfo>, k: Seq<char>) -> Option<ParamInfo>
    decreases params.len(),
{
    if params.len() == 0 {
        None
    } else if params.last().name@ == k {
        Some(params.last())
    } else {
        last_param_named(params.drop_last(), k)
    }
}

/// The error for an argument that names no parameter.
pub open spec fn unknown_arg_msg(k: Seq<char>) -> Seq<char> {
    "unknown argument '"@ + k + "'"@
}

/// The error for arguments that are not an object.
pub open spec fn not_object_msg() -> Seq<char> {
    "'arguments' must be a JSON object"@
}

/// The argument buckets for the members of an arguments object, in order:
/// `body` goes to the request body when the operation has one; every other
/// key must name a parameter.
pub open spec fn args_fold(params: Seq<ParamInfo>, has_body: bool, members: Seq<(Seq<char>, JsonV)>) -> Result<ArgsView, Seq<char>>
    decreases members.len(),
{
    if members.len() == 0 {
        Ok(execute::empty_args())
    } else {
        match args_fold(params, has_body, members.drop_last()) {
            Err(e) => Err(e),
            Ok(a) => {
                let k = members.last().0;
                let v = members.last().1;
                if k == "body"@ && has_body {
                    Ok(ArgsView { body: Some(v), ..a })
                } else {
                    match last_param_named(params, k) {
                        None => Err(unknown_arg_msg(k)),
                        Some(p) => Ok(place(a, p, k, v)),
                    }
                }
            },
        }
    }
}

/// Once a member is refused, the whole object is refused with that error.
pub proof fn lemma_fold_err_sticks(params: Seq<ParamInfo>, has_body: bool, s: Seq<(Seq<char>, JsonV)>, j: int, e: Seq<char>)
    requires
        0 <= j <= s.len(),
        args_fold(params, has_body, s.subrange(0, j)) == Err::<ArgsView, Seq<char>>(e),
    ensures
        args_fold(params, has_body, s) == Err::<ArgsView, Seq<char>>(e),
    decreases s.len() - j,
{
    if j < s.len() {
        let t = s.subrange(0, j + 1);
        assert(t.drop_last() =~= s.subrange(0, j));
        lemma_fold_err_sticks(params, has_body, s, j + 1, e);
    } else {
        assert(s.subrange(0, j) =~= s);
    }
}

/// The argument buckets for an MCP `arguments` value.
pub open spec fn programmatic_args(params: Seq<ParamInfo>, has_body: bool, arguments: JsonV) -> Result<ArgsView, Seq<char>> {
    match arguments {
        JsonV::Object(m) => args_fold(params, has_body, m),
        JsonV::Null => Ok(execute::empty_args()),
        _ => Err(not_object_msg()),
    }
}

/// Coerce a JSON value to its request text.
pub fn scalar_to_string(v: &Json) -> (r: String)
    ensures
        r@ == scalar_text(v@),
{
    proof {
        reveal_strlit("true");
        reveal_strlit("false");
    }
    match v {
        Json::Str(s) => s.clone(),
        Json::Bool(b) => if *b { String::from_str("true") } else { String::from_str("false") },
        Json::Number(n) => n.clone(),
        Json::Null => String::new(),
        _ => json::to_json_text(v),
    }
}

/// The scalar texts of `items` joined with commas.
fn join_scalars(items: &Vec<Json>) -> (r: String)
    ensures
        r@ == joined_scalars(json::jv_items(items@)),
{
    let ghost iv = json::jv_items(items@);
    proof {
        json::lemma_jv_items(items@);
    }
    let mut out = String::new();
    let mut i: usize = 0;
    while i < items.len()
        invariant
            i <= items.len(),
            iv == json::jv_items(items@),
            iv.len() == items@.len(),
            forall|k: int| 0 <= k < items@.len() ==> #[trigger] iv[k] == items@[k]@,
            out@ == joined_scalars(iv.subrange(0, i as int)),
        decreases items.len() - i,
    {
        if i > 0 {
            out.append(",");
        }
        let t = scalar_to_string(&items[i]);
        out.append(t.as_str());
        proof {
            let s = iv.subrange(0, i + 1);
            assert(s.drop_last() =~= iv.subrange(0, i as int));
            assert(s.last() == iv[i as int]);
            if i == 0 {
                assert(s.len() == 1);
            }
        }
        i = i + 1;
    }
    proof {
        assert(iv.subrange(0, i as int) =~= iv);
    }
    out
}

/// Sets `name` to `text` in the bucket of `loc`.
fn put_bucket(prog: &mut ProgrammaticArgs, loc: ParameterLocation, name: &str, text: String)
    requires
        execute::args_wf(old(prog).args_view()),
    ensures
        final(prog).args_view() == put_at(old(prog).args_view(), loc, name@, text@),
        execute::args_wf(final(prog).args_view()),
        final(prog).auth_override == old(prog).auth_override,
        final(prog).server_override == old(prog).server_override,
        final(prog).retry_count == old(prog).retry_count,
        final(prog).retry_max_wait_secs == old(prog).retry_max_wait_secs,
{
    let ghost a = prog.args_view();
    proof {
        strmap::lemma_put(a.path, name@, text@);
        strmap::lemma_put(a.query, name@, text@);
        strmap::lemma_put(a.header, name@, text@);
        strmap::lemma_put(a.cookie, name@, text@);
    }
    match loc {
        ParameterLocation::Path => strmap::map_insert(&mut prog.path, name.to_owned(), text),
        ParameterLocation::Query => strmap::map_insert(&mut prog.query, name.to_owned(), text),
        ParameterLocation::Header => strmap::map_insert(&mut prog.header, name.to_owned(), text),
        ParameterLocation::Cookie => strmap::map_insert(&mut prog.cookie, name.to_owned(), text),
    }
}

/// Place one argument into the right slot, expanding arrays per the
/// parameter's OpenAPI `style` / `explode`.
pub fn place_argument(prog: &mut ProgrammaticArgs, param: &ParamInfo, name: &str, value: &Json)
    requires
        execute::args_wf(old(prog).args_view()),
    ensures
        final(prog).args_view() == place(old(prog).args_view(), *param, name@, value@),
        execute::args_wf(final(prog).args_view()),
        final(prog).auth_override == old(prog).auth_override,
        final(prog).server_override == old(prog).server_override,
        final(prog).retry_count == old(prog).retry_count,
        final(prog).retry_max_wait_secs == old(prog).retry_max_wait_secs,
{
    match value {
        Json::Array(items) => {
            if param.location == ParameterLocation::Query
                && tools::explode_default_for(param.style.as_str(), param.explode, true) {
                let ghost start = prog.query_extras@;
                let ghost iv = json::jv_items(items@);
                proof {
                    json::lemma_jv_items(items@);
                }
                let mut i: usize = 0;
                while i < items.len()
                    invariant
                        i <= items.len(),
                        iv == json::jv_items(items@),
                        iv.len() == items@.len(),
                        forall|k: int| 0 <= k < items@.len() ==> #[trigger] iv[k] == items@[k]@,
                        order::pair_views(prog.query_extras@) == order::pair_views(start) + exploded(name@, iv.subrange(0, i as int)),
                        prog.args_view() == (ArgsView { query_extras: order::pair_views(prog.query_extras@), ..old(prog).args_view() }),
                        prog.auth_override == old(prog).auth_override,
                        prog.server_override == old(prog).server_override,
                        prog.retry_count == old(prog).retry_count,
                        prog.retry_max_wait_secs == old(prog).retry_max_wait_secs,
                        start == old(prog).query_extras@,
                    decreases items.len() - i,
                {
                    let t = scalar_to_string(&items[i]);
                    let ghost before = prog.query_extras@;
                    prog.query_extras.push((name.to_owned(), t));
                    proof {
                        assert(order::pair_views(prog.query_extras@) =~= order::pair_views(before).push((name@, t@)));
                        assert(exploded(name@, iv.subrange(0, i + 1)) =~= exploded(name@, iv.subrange(0, i as int)).push((name@, scalar_text(iv[i as int]))));
                    }
                    i = i + 1;
                }
                proof {
                    assert(iv.subrange(0, i as int) =~= iv);
                }
            } else {
                let joined = join_scalars(items);
                put_bucket(prog, param.location, name, joined);
            }
        }
        _ => {
            let t = scalar_to_string(value);
            put_bucket(prog, param.location, name, t);
        }
    }
}

/// The last declared parameter called `k`.
fn find_param<'a>(params: &'a Vec<ParamInfo>, k: &str) -> (r: Option<&'a ParamInfo>)
    ensures
        match r {
            Some(p) => last_param_named(params@, k@) == Some(*p),
            None => last_param_named(params@, k@) is None,
        },
{
    let mut i: usize = params.len();
    proof {
        assert(params@.subrange(0, params@.len() as int) =~= params@);
    }
    while i > 0
        invariant
            i <= params.len(),
            last_param_named(params@, k@) == last_param_named(params@.subrange(0, i as int), k@),
        decreases i,
    {
        proof {
            let s = params@.subrange(0, i as int);
            assert(s.drop_last() =~= params@.subrange(0, i - 1));
            assert(s.last() == params@[i - 1]);
        }
        if crate::json::str_eq(params[i - 1].name.as_str(), k) {
            return Some(&params[i - 1]);
        }
        i = i - 1;
    }
    None
}

/// Walk the MCP-provided arguments object, route each key to the matching
/// parameter slot, and put the reserved `body` key into the request body
/// when the operation has one.
pub fn build_programmatic_args(op: &OperationInfo, arguments: &Json) -> (r: Result<ProgrammaticArgs, String>)
    ensures
        match r {
            Ok(p) => programmatic_args(op.parameters@, op.request_body.is_some(), arguments@) == Ok::<ArgsView, Seq<char>>(p.args_view())
                && p.auth_override is None && p.server_override is None && p.retry_count == 1
                && p.retry_max_wait_secs == 60,
            Err(e) => programmatic_args(op.parameters@, op.request_body.is_some(), arguments@) == Err::<ArgsView, Seq<char>>(e@),
        },
{
    let mut prog = ProgrammaticArgs::new();
    let m = match arguments {
        Json::Object(m) => m,
        Json::Null => return Ok(prog),
        _ => return Err(String::from_str("'arguments' must be a JSON object")),
    };
    let ghost mv = json::jv_members(m@);
    proof {
        json::lemma_jv_members(m@);
        reveal_strlit("body");
    }
    let mut i: usize = 0;
    while i < m.len()
        invariant
            i <= m.len(),
            mv == json::jv_members(m@),
            mv.len() == m@.len(),
            forall|k: int| 0 <= k < m@.len() ==> #[trigger] mv[k] == (m@[k].0@, m@[k].1@),
            arguments@ == JsonV::Object(mv),
            args_fold(op.parameters@, op.request_body.is_some(), mv.subrange(0, i as int)) == Ok::<ArgsView, Seq<char>>(prog.args_view()),
            execute::args_wf(prog.args_view()),
            prog.auth_override is None,
            prog.server_override is None,
            prog.retry_count == 1,
            prog.retry_max_wait_secs == 60,
        decreases m.len() - i,
    {
        let key = m[i].0.as_str();
        let value = &m[i].1;
        proof {
            let s = mv.subrange(0, i + 1);
            assert(s.drop_last() =~= mv.subrange(0, i as int));
            assert(s.last() == mv[i as int]);
        }
        if crate::json::str_eq(key, "body") && op.request_body.is_some() {
            prog.body = Some(json::copy_json(value));
        } else {
            match find_param(&op.parameters, key) {
                None => {
                    let mut msg = String::from_str("unknown argument '");
                    msg.append(key);
                    msg.append("'");
                    proof {
                        lemma_fold_err_sticks(op.parameters@, op.request_body.is_some(), mv, i + 1, msg@);
                    }
                    return Err(msg);
                }
                Some(p) => {
                    place_argument(&mut prog, p, key, value);
                }
            }
        }
        i = i + 1;
    }
    proof {
        assert(mv.subrange(0, i as int) =~= mv);
    }
    Ok(prog)
}


/// A JSON value goes into a request as its JSON text, except that a string
/// goes in as its characters (no quotes) and `null` as nothing: a boolean
/// is `true` or `false`, a number its digits, an array or object its
/// compact JSON.
pub proof fn law_scalar_text_is_json_text(v: JsonV)
    ensures
        !(v is Str) && !(v is Null) ==> scalar_text(v) == json::json_text(v),
        v matches JsonV::Str(s) ==> scalar_text(v) == s,
        v is Null ==> scalar_text(v) == Seq::<char>::empty(),
        v matches JsonV::Bool(b) ==> scalar_text(v) == (if b { "true"@ } else { "false"@ }),
{
}

} // verus!
