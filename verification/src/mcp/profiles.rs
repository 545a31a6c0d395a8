//! Checking the auth profiles an MCP server is asked to use: every profile
//! named by a `--spall-auth-tool` flag or by an operation's
//! `x-mcp-auth-profile` extension must be configured for the API.

use vstd::prelude::*;
use crate::ir::OperationInfo;
use crate::order::{self, strictly_sorted, views, PairSeq};
use crate::text;

verus! {

/// What `format!("{:?}", names)` writes for a list of strings.
pub uninterp spec fn debug_strings(names: Seq<Seq<char>>) -> Seq<char>;

/// `format!("{:?}", names)`: the `Debug` text of a list of strings.
#[verifier::external_body]
fn debug_names(names: &Vec<String>) -> (r: String)
    ensures
        r@ == debug_strings(views(names@)),
{
    format!("{:?}", names)
}

/// The references made by `--spall-auth-tool <tool>=<profile>` pairs: each
/// profile with the flag that names it.
pub open spec fn tool_refs(auth_tool: PairSeq) -> Seq<(Seq<char>, Seq<char>)> {
    auth_tool.map_values(|e: (Seq<char>, Seq<char>)| (e.1, "--spall-auth-tool "@ + e.0 + "="@ + e.1))
}

/// The references made by operations' `x-mcp-auth-profile` extensions, in
/// operation order.
pub open spec fn op_refs(ops: Seq<OperationInfo>) -> Seq<(Seq<char>, Seq<char>)>
    decreases ops.len(),
{
    if ops.len() == 0 {
        seq![]
    } else {
        let rest = op_refs(ops.drop_last());
        match ops.last().mcp_auth_profile {
            Some(p) => rest.push((p@, "x-mcp-auth-profile on operation '"@ + ops.last().operation_id@ + "'"@)),
            None => rest,
        }
    }
}

/// Every profile reference, with where it comes from: the flags first (in
/// tool order), then the operations.
pub open spec fn profile_refs(auth_tool: PairSeq, ops: Seq<OperationInfo>) -> Seq<(Seq<char>, Seq<char>)> {
    tool_refs(auth_tool) + op_refs(ops)
}

/// Whether profile `p` is referenced.
pub open spec fn referenced(refs: Seq<(Seq<char>, Seq<char>)>, p: Seq<char>) -> bool {
    exists|i: int| 0 <= i < refs.len() && refs[i].0 == p
}

/// Where profile `p` is referenced from, in order.
pub open spec fn sources_of(refs: Seq<(Seq<char>, Seq<char>)>, p: Seq<char>) -> Seq<Seq<char>>
    decreases refs.len(),
{
    if refs.len() == 0 {
        seq![]
    } else if refs.last().0 == p {
        sources_of(refs.drop_last(), p).push(refs.last().1)
    } else {
        sources_of(refs.drop_last(), p)
    }
}

/// The report line of a profile that is not configured.
pub open spec fn unknown_line(refs: Seq<(Seq<char>, Seq<char>)>, p: Seq<char>) -> Seq<char> {
    "  '"@ + p + "' (referenced from: "@ + text::join(sources_of(refs, p), "; "@) + ")"@
}

/// The usage error for profiles that are not configured: one line per such
/// profile (in ascending order), then the configured profiles (in
/// ascending order, as a debug list).
pub open spec fn profiles_report(
    api: Seq<char>,
    unknown: Seq<Seq<char>>,
    refs: Seq<(Seq<char>, Seq<char>)>,
    configured: Seq<Seq<char>>,
) -> Seq<char> {
    "auth profile(s) not configured for api '"@ + api + "':\n"@
        + text::join(unknown.map_values(|p: Seq<char>| unknown_line(refs, p)), "\n"@)
        + "\nconfigured profiles in this api: "@ + debug_strings(configured)
}

/// The references of the flags and operations, as built by the caller of
/// `validate_auth_profiles`.
fn collect_refs(auth_tool: &Vec<(String, String)>, ops: &Vec<OperationInfo>) -> (r: Vec<(String, String)>)
    ensures
        order::pair_views(r@) == profile_refs(order::pair_views(auth_tool@), ops@),
{
    let mut r: Vec<(String, String)> = Vec::new();
    let mut i: usize = 0;
    while i < auth_tool.len()
        invariant
            i <= auth_tool.len(),
            order::pair_views(r@) == tool_refs(order::pair_views(auth_tool@).subrange(0, i as int)),
        decreases auth_tool.len() - i,
    {
        let mut src = "--spall-auth-tool ".to_owned();
        src.append(auth_tool[i].0.as_str());
        src.append("=");
        src.append(auth_tool[i].1.as_str());
        let ghost before = r@;
        r.push((auth_tool[i].1.clone(), src));
        proof {
            assert(order::pair_views(r@) =~= order::pair_views(before).push((auth_tool@[i as int].1@, r@.last().1@)));
            assert(tool_refs(order::pair_views(auth_tool@).subrange(0, i + 1)) =~= tool_refs(order::pair_views(auth_tool@).subrange(0, i as int)).push(
                tool_refs(order::pair_views(auth_tool@))[i as int]));
        }
        i = i + 1;
    }
    proof {
        assert(order::pair_views(auth_tool@).subrange(0, auth_tool@.len() as int) =~= order::pair_views(auth_tool@));
    }
    let ghost tools = order::pair_views(r@);
    let mut j: usize = 0;
    while j < ops.len()
        invariant
            j <= ops.len(),
            tools == tool_refs(order::pair_views(auth_tool@)),
            order::pair_views(r@) == tools + op_refs(ops@.subrange(0, j as int)),
        decreases ops.len() - j,
    {
        proof {
            assert(ops@.subrange(0, j + 1).drop_last() =~= ops@.subrange(0, j as int));
            assert(ops@.subrange(0, j + 1).last() == ops@[j as int]);
        }
        if let Some(p) = &ops[j].mcp_auth_profile {
            let mut src = "x-mcp-auth-profile on operation '".to_owned();
            src.append(ops[j].operation_id.as_str());
            src.append("'");
            let ghost before = r@;
            r.push((p.clone(), src));
            proof {
                assert(order::pair_views(r@) =~= order::pair_views(before).push((p@, r@.last().1@)));
            }
        }
        j = j + 1;
    }
    proof {
        assert(ops@.subrange(0, ops@.len() as int) =~= ops@);
    }
    r
}

/// The strings of `v` without repeats, in ascending order.
fn sorted_set(v: &Vec<String>) -> (r: Vec<String>)
    ensures
        strictly_sorted(views(r@)),
        forall|x: Seq<char>| views(r@).contains(x) <==> views(v@).contains(x),
{
    let mut r: Vec<String> = Vec::new();
    let mut i: usize = 0;
    while i < v.len()
        invariant
            i <= v.len(),
            strictly_sorted(views(r@)),
            forall|x: Seq<char>| views(r@).contains(x) <==> views(v@).subrange(0, i as int).contains(x),
        decreases v.len() - i,
    {
        let ghost before = views(r@);
        let item = v[i].clone();
        assert(item@ == v@[i as int]@);
        order::insert_sorted(&mut r, item);
        proof {
            assert forall|x: Seq<char>| views(v@).subrange(0, i + 1).contains(x)
                <==> (views(v@).subrange(0, i as int).contains(x) || x == v@[i as int]@) by {
                let a = views(v@).subrange(0, i + 1);
                let b = views(v@).subrange(0, i as int);
                if a.contains(x) {
                    let k = choose|k: int| 0 <= k < a.len() && a[k] == x;
                    if k < i {
                        assert(b[k] == x);
                    }
                }
                if b.contains(x) {
                    let k = choose|k: int| 0 <= k < b.len() && b[k] == x;
                    assert(a[k] == x);
                }
                if x == v@[i as int]@ {
                    assert(a[i as int] == x);
                }
            }
            assert forall|x: Seq<char>| views(r@).contains(x) <==> views(v@).subrange(0, i + 1).contains(x) by {
                assert(before.contains(x) <==> views(v@).subrange(0, i as int).contains(x));
            }
        }
        i = i + 1;
    }
    proof {
        assert(views(v@).subrange(0, v@.len() as int) =~= views(v@));
    }
    r
}

/// The profiles referenced in `refs`, without repeats, in ascending order.
fn referenced_names(refs: &Vec<(String, String)>) -> (r: Vec<String>)
    ensures
        strictly_sorted(views(r@)),
        forall|x: Seq<char>| views(r@).contains(x) <==> referenced(order::pair_views(refs@), x),
{
    let ghost rv = order::pair_views(refs@);
    let mut r: Vec<String> = Vec::new();
    let mut i: usize = 0;
    while i < refs.len()
        invariant
            i <= refs.len(),
            rv == order::pair_views(refs@),
            strictly_sorted(views(r@)),
            forall|x: Seq<char>| views(r@).contains(x) <==> referenced(rv.subrange(0, i as int), x),
        decreases refs.len() - i,
    {
        let ghost before = views(r@);
        let item = refs[i].0.clone();
        assert(item@ == refs@[i as int].0@);
        order::insert_sorted(&mut r, item);
        proof {
            assert forall|x: Seq<char>| referenced(rv.subrange(0, i + 1), x)
                <==> (referenced(rv.subrange(0, i as int), x) || x == refs@[i as int].0@) by {
                let a = rv.subrange(0, i + 1);
                let b = rv.subrange(0, i as int);
                if referenced(a, x) {
                    let k = choose|k: int| 0 <= k < a.len() && a[k].0 == x;
                    if k < i {
                        assert(b[k].0 == x);
                    }
                }
                if referenced(b, x) {
                    let k = choose|k: int| 0 <= k < b.len() && b[k].0 == x;
                    assert(a[k].0 == x);
                }
                if x == refs@[i as int].0@ {
                    assert(a[i as int].0 == x);
                }
            }
            assert forall|x: Seq<char>| views(r@).contains(x) <==> referenced(rv.subrange(0, i + 1), x) by {
                assert(before.contains(x) <==> referenced(rv.subrange(0, i as int), x));
            }
        }
        i = i + 1;
    }
    proof {
        assert(rv.subrange(0, refs@.len() as int) =~= rv);
    }
    r
}


/// Where profile `p` is referenced from.
fn sources_exec(refs: &Vec<(String, String)>, p: &str) -> (r: Vec<String>)
    ensures
        views(r@) == sources_of(order::pair_views(refs@), p@),
{
    let ghost rv = order::pair_views(refs@);
    let mut r: Vec<String> = Vec::new();
    let mut i: usize = 0;
    while i < refs.len()
        invariant
            i <= refs.len(),
            rv == order::pair_views(refs@),
            views(r@) == sources_of(rv.subrange(0, i as int), p@),
        decreases refs.len() - i,
    {
        proof {
            assert(rv.subrange(0, i + 1).drop_last() =~= rv.subrange(0, i as int));
            assert(rv.subrange(0, i + 1).last() == rv[i as int]);
        }
        if crate::json::str_eq(refs[i].0.as_str(), p) {
            let ghost before = r@;
            r.push(refs[i].1.clone());
            proof {
                assert(views(r@) =~= views(before).push(refs@[i as int].1@));
            }
        }
        i = i + 1;
    }
    proof {
        assert(rv.subrange(0, refs@.len() as int) =~= rv);
    }
    r
}

/// The report line of a profile that is not configured.
fn unknown_line_exec(refs: &Vec<(String, String)>, p: &str) -> (r: String)
    ensures
        r@ == unknown_line(order::pair_views(refs@), p@),
{
    let srcs = sources_exec(refs, p);
    proof {
        assert(text::views(srcs@) =~= views(srcs@));
    }
    let joined = text::join_exec(&srcs, "; ");
    let mut m = "  '".to_owned();
    m.append(p);
    m.append("' (referenced from: ");
    m.append(joined.as_str());
    m.append(")");
    m
}

/// Checks the profiles referenced by `--spall-auth-tool` pairs (`auth_tool`,
/// keyed by tool in ascending order) and by the operations' extensions
/// against the profiles configured for the API. When every referenced
/// profile is configured, the answer is the referenced profiles in
/// ascending order; otherwise a usage error lists each unconfigured one
/// with where it is referenced from, and the configured ones.
pub fn validate_auth_profiles(
    api_name: &str,
    auth_tool: &Vec<(String, String)>,
    ops: &Vec<OperationInfo>,
    configured: &Vec<String>,
) -> (r: Result<Vec<String>, crate::error::SpallCliError>)
    requires
        views(configured@).no_duplicates(),
    ensures
        ({
            let refs = profile_refs(order::pair_views(auth_tool@), ops@);
            match r {
                Ok(v) => strictly_sorted(views(v@))
                    && (forall|x: Seq<char>| views(v@).contains(x) <==> referenced(refs, x))
                    && (forall|x: Seq<char>| referenced(refs, x) ==> views(configured@).contains(x)),
                Err(crate::error::SpallCliError::Usage(m)) => exists|unknown: Seq<Seq<char>>, conf: Seq<Seq<char>>|
                    unknown.len() > 0 && strictly_sorted(unknown)
                    && (forall|x: Seq<char>| unknown.contains(x) <==> (referenced(refs, x) && !views(configured@).contains(x)))
                    && strictly_sorted(conf) && (forall|x: Seq<char>| conf.contains(x) <==> views(configured@).contains(x))
                    && m@ == profiles_report(api_name@, unknown, refs, conf),
                Err(_) => false,
            }
        }),
{
    let refs = collect_refs(auth_tool, ops);
    let ghost rv = order::pair_views(refs@);
    let names = referenced_names(&refs);
    let ghost nv = views(names@);
    let mut unknown: Vec<String> = Vec::new();
    let mut validated: Vec<String> = Vec::new();
    let mut i: usize = 0;
    while i < names.len()
        invariant
            i <= names.len(),
            nv == views(names@),
            strictly_sorted(nv),
            forall|x: Seq<char>| nv.contains(x) <==> referenced(rv, x),
            strictly_sorted(views(unknown@)),
            strictly_sorted(views(validated@)),
            forall|k: int| 0 <= k < unknown@.len() ==> exists|j: int| 0 <= j < i && #[trigger] views(unknown@)[k] == nv[j],
            forall|k: int| 0 <= k < validated@.len() ==> exists|j: int| 0 <= j < i && #[trigger] views(validated@)[k] == nv[j],
            forall|x: Seq<char>| views(unknown@).contains(x) <==> (nv.subrange(0, i as int).contains(x) && !views(configured@).contains(x)),
            forall|x: Seq<char>| views(validated@).contains(x) <==> (nv.subrange(0, i as int).contains(x) && views(configured@).contains(x)),
        decreases names.len() - i,
    {
        let ghost ub = views(unknown@);
        let ghost vb = views(validated@);
        let name = names[i].clone();
        proof {
            assert(name@ == nv[i as int]);
            assert forall|x: Seq<char>| nv.subrange(0, i + 1).contains(x)
                <==> (nv.subrange(0, i as int).contains(x) || x == nv[i as int]) by {
                let a = nv.subrange(0, i + 1);
                let b = nv.subrange(0, i as int);
                if a.contains(x) {
                    let k = choose|k: int| 0 <= k < a.len() && a[k] == x;
                    if k < i {
                        assert(b[k] == x);
                    }
                }
                if b.contains(x) {
                    let k = choose|k: int| 0 <= k < b.len() && b[k] == x;
                    assert(a[k] == x);
                }
                if x == nv[i as int] {
                    assert(a[i as int] == x);
                }
            }
        }
        if order::contains_string(configured, name.as_str()) {
            validated.push(name);
            proof {
                assert(views(validated@) =~= vb.push(nv[i as int]));
                assert forall|a: int, b: int| 0 <= a < b < views(validated@).len() implies
                    order::lex_lt(#[trigger] views(validated@)[a], #[trigger] views(validated@)[b]) by {
                    if b == vb.len() {
                        let j = choose|j: int| 0 <= j < i && vb[a] == nv[j];
                        assert(order::lex_lt(nv[j], nv[i as int]));
                    } else {
                        assert(order::lex_lt(vb[a], vb[b]));
                    }
                }
                assert forall|k: int| 0 <= k < validated@.len() implies exists|j: int| 0 <= j < i + 1 && #[trigger] views(validated@)[k] == nv[j] by {
                    if k == vb.len() {
                        assert(views(validated@)[k] == nv[i as int]);
                    } else {
                        assert(views(validated@)[k] == vb[k]);
                        let j = choose|j: int| 0 <= j < i && vb[k] == nv[j];
                        assert(views(validated@)[k] == nv[j]);
                    }
                }
                assert forall|x: Seq<char>| views(validated@).contains(x) <==> (nv.subrange(0, i + 1).contains(x) && views(configured@).contains(x)) by {
                    if views(validated@).contains(x) {
                        let k = choose|k: int| 0 <= k < views(validated@).len() && views(validated@)[k] == x;
                        if k < vb.len() {
                            assert(vb[k] == x);
                            assert(vb.contains(x));
                        }
                    }
                    if vb.contains(x) {
                        let k = choose|k: int| 0 <= k < vb.len() && vb[k] == x;
                        assert(views(validated@)[k] == x);
                    }
                    if x == nv[i as int] {
                        assert(views(validated@)[vb.len() as int] == x);
                    }
                }
                assert forall|x: Seq<char>| views(unknown@).contains(x) <==> (nv.subrange(0, i + 1).contains(x) && !views(configured@).contains(x)) by {
                    assert(ub.contains(x) <==> (nv.subrange(0, i as int).contains(x) && !views(configured@).contains(x)));
                }
            }
        } else {
            unknown.push(name);
            proof {
                assert(views(unknown@) =~= ub.push(nv[i as int]));
                assert forall|a: int, b: int| 0 <= a < b < views(unknown@).len() implies
                    order::lex_lt(#[trigger] views(unknown@)[a], #[trigger] views(unknown@)[b]) by {
                    if b == ub.len() {
                        let j = choose|j: int| 0 <= j < i && ub[a] == nv[j];
                        assert(order::lex_lt(nv[j], nv[i as int]));
                    } else {
                        assert(order::lex_lt(ub[a], ub[b]));
                    }
                }
                assert forall|k: int| 0 <= k < unknown@.len() implies exists|j: int| 0 <= j < i + 1 && #[trigger] views(unknown@)[k] == nv[j] by {
                    if k == ub.len() {
                        assert(views(unknown@)[k] == nv[i as int]);
                    } else {
                        assert(views(unknown@)[k] == ub[k]);
                        let j = choose|j: int| 0 <= j < i && ub[k] == nv[j];
                        assert(views(unknown@)[k] == nv[j]);
                    }
                }
                assert forall|x: Seq<char>| views(unknown@).contains(x) <==> (nv.subrange(0, i + 1).contains(x) && !views(configured@).contains(x)) by {
                    if views(unknown@).contains(x) {
                        let k = choose|k: int| 0 <= k < views(unknown@).len() && views(unknown@)[k] == x;
                        if k < ub.len() {
                            assert(ub[k] == x);
                            assert(ub.contains(x));
                        }
                    }
                    if ub.contains(x) {
                        let k = choose|k: int| 0 <= k < ub.len() && ub[k] == x;
                        assert(views(unknown@)[k] == x);
                    }
                    if x == nv[i as int] {
                        assert(views(unknown@)[ub.len() as int] == x);
                    }
                }
                assert forall|x: Seq<char>| views(validated@).contains(x) <==> (nv.subrange(0, i + 1).contains(x) && views(configured@).contains(x)) by {
                    assert(vb.contains(x) <==> (nv.subrange(0, i as int).contains(x) && views(configured@).contains(x)));
                }
            }
        }
        i = i + 1;
    }
    proof {
        assert(nv.subrange(0, names@.len() as int) =~= nv);
    }
    if unknown.len() == 0 {
        proof {
            assert forall|x: Seq<char>| views(validated@).contains(x) <==> referenced(rv, x) by {
                if referenced(rv, x) && !views(configured@).contains(x) {
                    assert(views(unknown@).contains(x));
                }
            }
            assert forall|x: Seq<char>| referenced(rv, x) implies views(configured@).contains(x) by {
                if !views(configured@).contains(x) {
                    assert(views(unknown@).contains(x));
                }
            }
        }
        return Ok(validated);
    }
    let conf = sorted_set(configured);
    let mut lines: Vec<String> = Vec::new();
    let mut k: usize = 0;
    while k < unknown.len()
        invariant
            k <= unknown.len(),
            rv == order::pair_views(refs@),
            text::views(lines@) == views(unknown@).subrange(0, k as int).map_values(|p: Seq<char>| unknown_line(rv, p)),
        decreases unknown.len() - k,
    {
        let line = unknown_line_exec(&refs, unknown[k].as_str());
        let ghost before = lines@;
        lines.push(line);
        proof {
            assert(text::views(lines@) =~= text::views(before).push(unknown_line(rv, unknown@[k as int]@)));
            assert(views(unknown@)[k as int] == unknown@[k as int]@);
            assert(views(unknown@).subrange(0, k + 1).map_values(|p: Seq<char>| unknown_line(rv, p))
                =~= views(unknown@).subrange(0, k as int).map_values(|p: Seq<char>| unknown_line(rv, p)).push(unknown_line(rv, unknown@[k as int]@)));
        }
        k = k + 1;
    }
    proof {
        assert(views(unknown@).subrange(0, unknown@.len() as int) =~= views(unknown@));
    }
    let report = text::join_exec(&lines, "\n");
    let listed = debug_names(&conf);
    let mut m = "auth profile(s) not configured for api '".to_owned();
    m.append(api_name);
    m.append("':\n");
    m.append(report.as_str());
    m.append("\nconfigured profiles in this api: ");
    m.append(listed.as_str());
    proof {
        assert(m@ =~= profiles_report(api_name@, views(unknown@), rv, views(conf@)));
        assert(views(unknown@).len() > 0);
    }
    Err(crate::error::SpallCliError::Usage(m))
}

/// Why a tool's auth profile could not be resolved at dispatch.
pub enum ResolveErr {
    /// The profile was not approved at startup (a bug in the caller).
    NotValidated { name: String },
    /// The API's registry had no such profile at first use.
    RegistryMiss { name: String },
}

/// The message of a resolution failure.
pub open spec fn resolve_err_text(e: ResolveErr) -> Seq<char> {
    match e {
        ResolveErr::NotValidated { name } => "internal: auth profile '"@ + name@ + "' not validated at startup"@,
        ResolveErr::RegistryMiss { name } => "auth profile '"@ + name@ + "' resolution failed: not found in registry"@,
    }
}

impl ResolveErr {
    /// The message of the failure (see `resolve_err_text`).
    pub fn message(&self) -> (r: String)
        ensures
            r@ == resolve_err_text(*self),
    {
        match self {
            ResolveErr::NotValidated { name } => {
                let mut m = String::from_str("internal: auth profile '");
                m.append(name.as_str());
                m.append("' not validated at startup");
                m
            },
            ResolveErr::RegistryMiss { name } => {
                let mut m = String::from_str("auth profile '");
                m.append(name.as_str());
                m.append("' resolution failed: not found in registry");
                m
            },
        }
    }
}

/// Where a tool call's API entry comes from.
pub enum ProfileRoute {
    /// The default entry (the tool names no profile).
    Default,
    /// The overlaid entry of this profile, resolved before and cached.
    Cached(String),
    /// This profile, to be resolved from the API's registry now.
    Resolve(String),
}

/// The resolved profiles after `name` has been resolved: `name` added once.
pub open spec fn after_resolution(resolved: Seq<Seq<char>>, name: Seq<char>) -> Seq<Seq<char>> {
    if resolved.contains(name) {
        resolved
    } else {
        resolved.push(name)
    }
}

/// A profile is resolved from the registry at most once: once resolved it
/// is cached (so `route` serves it from the cache), and the cache never
/// holds a profile twice.
pub proof fn law_profile_resolved_once(resolved: Seq<Seq<char>>, name: Seq<char>)
    requires
        resolved.no_duplicates(),
    ensures
        after_resolution(resolved, name).contains(name),
        after_resolution(resolved, name).no_duplicates(),
{
    let r = after_resolution(resolved, name);
    if !resolved.contains(name) {
        assert(r[r.len() - 1] == name);
        assert forall|i: int, j: int| 0 <= i < r.len() && 0 <= j < r.len() && i != j implies r[i] != r[j] by {
            if i < resolved.len() && j < resolved.len() {
                assert(r[i] == resolved[i] && r[j] == resolved[j]);
            } else if i < resolved.len() {
                assert(r[i] == resolved[i]);
            } else {
                assert(r[j] == resolved[j]);
            }
        }
    }
}

/// The auth profiles of a served API: those validated at startup, and
/// those whose overlaid entry has been resolved (and cached) since, in the
/// order they were first used.
pub struct AuthProfiles {
    pub validated: Vec<String>,
    pub resolved: Vec<String>,
}

impl AuthProfiles {
    /// The profiles validated at startup, none resolved yet.
    pub fn new(validated: Vec<String>) -> (r: AuthProfiles)
        ensures
            r.validated@ == validated@,
            r.resolved@.len() == 0,
    {
        AuthProfiles { validated, resolved: Vec::new() }
    }

    /// Route a tool call: no profile takes the default entry; a profile not
    /// validated at startup is refused; a resolved one comes from the
    /// cache; any other is resolved now.
    pub fn route(&self, profile: Option<&str>) -> (r: Result<ProfileRoute, ResolveErr>)
        ensures
            match profile {
                None => r matches Ok(ProfileRoute::Default),
                Some(n) => if !views(self.validated@).contains(n@) {
                    r matches Err(ResolveErr::NotValidated { name }) && name@ == n@
                } else if views(self.resolved@).contains(n@) {
                    r matches Ok(ProfileRoute::Cached(m)) && m@ == n@
                } else {
                    r matches Ok(ProfileRoute::Resolve(m)) && m@ == n@
                },
            },
    {
        let name = match profile {
            None => return Ok(ProfileRoute::Default),
            Some(n) => n,
        };
        if !crate::mcp::tools::list_has(&self.validated, name) {
            return Err(ResolveErr::NotValidated { name: name.to_owned() });
        }
        if crate::mcp::tools::list_has(&self.resolved, name) {
            Ok(ProfileRoute::Cached(name.to_owned()))
        } else {
            Ok(ProfileRoute::Resolve(name.to_owned()))
        }
    }

    /// Record the outcome of resolving `name` from the registry: found, it
    /// is cached from now on (once); missing, the call fails and nothing
    /// changes.
    pub fn record_resolution(&mut self, name: &str, found: bool) -> (r: Result<(), ResolveErr>)
        ensures
            final(self).validated@ == old(self).validated@,
            found ==> r is Ok && views(final(self).resolved@) == after_resolution(views(old(self).resolved@), name@),
            !found ==> (r matches Err(ResolveErr::RegistryMiss { name: m }) && m@ == name@)
                && final(self).resolved@ == old(self).resolved@,
    {
        if !found {
            return Err(ResolveErr::RegistryMiss { name: name.to_owned() });
        }
        if !crate::mcp::tools::list_has(&self.resolved, name) {
            let ghost before = self.resolved@;
            self.resolved.push(name.to_owned());
            proof {
                assert(views(self.resolved@) =~= views(before).push(name@));
            }
        }
        Ok(())
    }
}

} // verus!
