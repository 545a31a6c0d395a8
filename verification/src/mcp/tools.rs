//! Building the MCP tool registry: tool names, descriptions, tag filters,
//! deterministic truncation and the tag histogram.

use vstd::prelude::*;
use crate::text;
use crate::ir::{self, OperationInfo, HttpMethod};
use crate::json::{self, Json, JsonV};
use crate::order::PairSeq;
use crate::strmap;

verus! {

/// Characters allowed in a tool name (`[A-Za-z0-9_./-]`).
pub open spec fn name_char_allowed(c: char) -> bool {
    ('a' <= c && c <= 'z') || ('A' <= c && c <= 'Z') || ('0' <= c && c <= '9') || c == '_'
        || c == '-' || c == '.' || c == '/'
}

/// `raw` with allowed characters other than `-` lowercased and every run
/// of `-` and other characters written as one `-` (never right after
/// another `-`).
pub open spec fn dashed(raw: Seq<char>) -> Seq<char>
    decreases raw.len(),
{
    if raw.len() == 0 {
        seq![]
    } else {
        let p = dashed(raw.drop_last());
        let c = raw.last();
        if name_char_allowed(c) && c != '-' {
            p.push(text::lower_char(c))
        } else if p.len() > 0 && p.last() == '-' {
            p
        } else {
            p.push('-')
        }
    }
}

/// The longest tool name.
pub open spec fn max_tool_name_len() -> nat {
    64
}

/// The MCP tool name for an operation id: lowercased, disallowed
/// characters and runs of `-` collapsed to one `-`, no `-` at either end, `op` when nothing is
/// left, and cut to 64 characters (dropping `-` the cut leaves at the end).
pub open spec fn sanitized(raw: Seq<char>) -> Seq<char> {
    let t = text::trim_char(dashed(raw), '-');
    let u = if t.len() == 0 { "op"@ } else { t };
    if u.len() > max_tool_name_len() {
        text::trim_end_by(u.subrange(0, max_tool_name_len() as int), text::strip_pred(Some('-')))
    } else {
        u
    }
}

/// Whether a character may appear in a tool name.
fn name_char_allowed_exec(c: char) -> (b: bool)
    ensures
        b == name_char_allowed(c),
{
    ('a' <= c && c <= 'z') || ('A' <= c && c <= 'Z') || ('0' <= c && c <= '9') || c == '_'
        || c == '-' || c == '.' || c == '/'
}

/// Lower-kebab-case sanitizer for the tool-name character class
/// `[A-Za-z0-9_./-]`, 1..64 characters. Whitespace and any disallowed
/// character collapse to `-`; runs of `-` are collapsed.
pub fn sanitize_tool_name(raw: &str) -> (r: String)
    ensures
        r@ == sanitized(raw@),
{
    let v = text::chars_of(raw);
    let mut out: Vec<char> = Vec::new();
    let mut i: usize = 0;
    while i < v.len()
        invariant
            i <= v.len(),
            v@ == raw@,
            out@ == dashed(v@.subrange(0, i as int)),
        decreases v.len() - i,
    {
        let c = v[i];
        proof {
            assert(v@.subrange(0, i + 1).drop_last() =~= v@.subrange(0, i as int));
            assert(v@.subrange(0, i + 1).last() == c);
        }
        if name_char_allowed_exec(c) && c != '-' {
            out.push(text::lower_char_exec(c));
        } else if !(out.len() > 0 && out[out.len() - 1] == '-') {
            out.push('-');
        }
        i = i + 1;
    }
    proof {
        assert(v@.subrange(0, v@.len() as int) =~= v@);
        assert(out@.subrange(0, out@.len() as int) =~= out@);
    }
    let (a, b) = text::trim_bounds(&out, 0, out.len(), Some('-'));
    let mut u = if a == b {
        proof {
            reveal_strlit("op");
        }
        vec!['o', 'p']
    } else {
        text::v_range(&out, a, b)
    };
    proof {
        let t = text::trim_char(dashed(raw@), '-');
        if a == b {
            assert(u@ =~= "op"@);
        }
        assert(u@ == (if t.len() == 0 { "op"@ } else { t }));
    }
    if u.len() > 64 {
        let ghost p = text::strip_pred(Some('-'));
        let mut e: usize = 64;
        proof {
            assert(u@.subrange(0, 64) =~= u@.subrange(0, e as int));
        }
        while e > 0 && u[e - 1] == '-'
            invariant
                e <= 64 < u.len(),
                p == text::strip_pred(Some('-')),
                text::trim_end_by(u@.subrange(0, 64), p) == text::trim_end_by(u@.subrange(0, e as int), p),
            decreases e,
        {
            proof {
                assert(u@.subrange(0, e as int).drop_last() =~= u@.subrange(0, e - 1));
            }
            e = e - 1;
        }
        proof {
            assert(text::trim_end_by(u@.subrange(0, e as int), p) == u@.subrange(0, e as int));
        }
        u = text::v_range(&u, 0, e);
    }
    text::string_of(&u)
}

/// OpenAPI explode defaults: `true` when the spec says so; for the `form`
/// style (whose OpenAPI default is exploded) `fallback_for_form`; `false`
/// otherwise.
pub open spec fn explode_default(style: Seq<char>, explode: bool, fallback_for_form: bool) -> bool {
    if explode {
        true
    } else if style == "form"@ {
        fallback_for_form
    } else {
        false
    }
}

/// OpenAPI 3.x explode default for a parameter.
pub fn explode_default_for(style: &str, explode: bool, fallback_for_form: bool) -> (r: bool)
    ensures
        r == explode_default(style@, explode, fallback_for_form),
{
    if explode {
        return true;
    }
    if crate::json::str_eq(style, "form") {
        return fallback_for_form;
    }
    false
}

/// The tag name untagged operations are grouped under.
pub open spec fn default_tag() -> Seq<char> {
    "default"@
}

/// The first tag of an operation, or `default` when it has none.
pub open spec fn first_tag_of(tags: Seq<Seq<char>>) -> Seq<char> {
    if tags.len() == 0 { default_tag() } else { tags[0] }
}

/// The first OpenAPI tag of an operation, or the synthetic `default`
/// bucket when it has none.
pub fn first_tag(op: &OperationInfo) -> (r: &str)
    ensures
        r@ == first_tag_of(ir::str_views(op.tags@)),
{
    if op.tags.len() == 0 {
        "default"
    } else {
        op.tags[0].as_str()
    }
}

/// Whether a tag list names one of the wanted tags (an untagged operation
/// counts as tagged `default`).
pub open spec fn tag_in(tags: Seq<Seq<char>>, list: Seq<Seq<char>>) -> bool {
    if tags.len() == 0 {
        list.contains(default_tag())
    } else {
        exists|i: int, j: int| 0 <= i < tags.len() && 0 <= j < list.len() && tags[i] == list[j]
    }
}

/// The wanted/unwanted tag filter: an operation is kept when the wanted
/// list is empty or names one of its tags, and the unwanted list names none.
pub open spec fn admits(tags: Seq<Seq<char>>, wanted: Seq<Seq<char>>, unwanted: Seq<Seq<char>>) -> bool {
    (wanted.len() == 0 || tag_in(tags, wanted)) && (unwanted.len() == 0 || !tag_in(tags, unwanted))
}

/// Whether `list` holds `s`.
pub(crate) fn list_has(list: &Vec<String>, s: &str) -> (b: bool)
    ensures
        b == ir::str_views(list@).contains(s@),
{
    let mut i: usize = 0;
    while i < list.len()
        invariant
            i <= list.len(),
            forall|k: int| 0 <= k < i ==> list@[k]@ != s@,
        decreases list.len() - i,
    {
        if crate::json::str_eq(list[i].as_str(), s) {
            proof {
                assert(ir::str_views(list@)[i as int] == s@);
            }
            return true;
        }
        i = i + 1;
    }
    proof {
        if ir::str_views(list@).contains(s@) {
            let k = choose|k: int| 0 <= k < ir::str_views(list@).len() && ir::str_views(list@)[k] == s@;
            assert(list@[k]@ == s@);
        }
    }
    false
}

/// Whether the tags name one of `list`.
fn tag_in_exec(tags: &Vec<String>, list: &Vec<String>) -> (b: bool)
    ensures
        b == tag_in(ir::str_views(tags@), ir::str_views(list@)),
{
    if tags.len() == 0 {
        return list_has(list, "default");
    }
    let mut i: usize = 0;
    while i < tags.len()
        invariant
            i <= tags.len(),
            forall|a: int, b: int| 0 <= a < i && 0 <= b < list@.len() ==> tags@[a]@ != list@[b]@,
        decreases tags.len() - i,
    {
        if list_has(list, tags[i].as_str()) {
            proof {
                let tv = ir::str_views(tags@);
                let lv = ir::str_views(list@);
                let k = choose|k: int| 0 <= k < lv.len() && lv[k] == tags@[i as int]@;
                assert(tv[i as int] == lv[k]);
            }
            return true;
        }
        proof {
            assert forall|b: int| 0 <= b < list@.len() implies tags@[i as int]@ != list@[b]@ by {
                assert(ir::str_views(list@)[b] == list@[b]@);
            }
        }
        i = i + 1;
    }
    false
}

/// The wanted/unwanted tag filter.
pub fn tag_filter_admits(op: &OperationInfo, wanted: &Vec<String>, unwanted: &Vec<String>) -> (b: bool)
    ensures
        b == admits(ir::str_views(op.tags@), ir::str_views(wanted@), ir::str_views(unwanted@)),
{
    if wanted.len() > 0 && !tag_in_exec(&op.tags, wanted) {
        return false;
    }
    if unwanted.len() > 0 && tag_in_exec(&op.tags, unwanted) {
        return false;
    }
    true
}

/// Tags joined with `", "`.
pub open spec fn join_tags(tags: Seq<Seq<char>>) -> Seq<char>
    decreases tags.len(),
{
    if tags.len() == 0 {
        seq![]
    } else if tags.len() == 1 {
        tags[0]
    } else {
        join_tags(tags.drop_last()) + ", "@ + tags.last()
    }
}

/// A tool's description: the summary, else the description, else
/// `METHOD /path`, followed by ` (tags: a, b)` when the operation is tagged.
pub open spec fn description_of(
    summary: Option<Seq<char>>,
    description: Option<Seq<char>>,
    method: ir::HttpMethod,
    path: Seq<char>,
    tags: Seq<Seq<char>>,
) -> Seq<char> {
    let head = match summary {
        Some(s) => s,
        None => match description {
            Some(d) => d,
            None => ir::method_text(method) + " "@ + path,
        },
    };
    if tags.len() == 0 { head } else { head + " (tags: "@ + join_tags(tags) + ")"@ }
}

/// The view of an optional string.
pub open spec fn opt_view(o: Option<String>) -> Option<Seq<char>> {
    match o {
        Some(s) => Some(s@),
        None => None,
    }
}

/// Build the description shown for a tool.
pub fn build_description(op: &OperationInfo) -> (r: String)
    ensures
        r@ == description_of(opt_view(op.summary), opt_view(op.description), op.method,
            op.path_template@, ir::str_views(op.tags@)),
{
    let mut buf = match &op.summary {
        Some(s) => s.clone(),
        None => match &op.description {
            Some(d) => d.clone(),
            None => {
                let mut h = String::from_str(ir::method_name(op.method));
                h.append(" ");
                h.append(op.path_template.as_str());
                h
            }
        },
    };
    if op.tags.len() > 0 {
        buf.append(" (tags: ");
        let ghost tv = ir::str_views(op.tags@);
        let ghost head = buf@;
        let mut i: usize = 0;
        while i < op.tags.len()
            invariant
                i <= op.tags.len(),
                tv == ir::str_views(op.tags@),
                buf@ == head + join_tags(tv.subrange(0, i as int)),
            decreases op.tags.len() - i,
        {
            if i > 0 {
                buf.append(", ");
            }
            buf.append(op.tags[i].as_str());
            proof {
                let t = tv.subrange(0, i + 1);
                assert(t.drop_last() =~= tv.subrange(0, i as int));
                assert(t.last() == op.tags@[i as int]@);
                if i == 0 {
                    assert(t.len() == 1);
                }
            }
            i = i + 1;
        }
        proof {
            assert(tv.subrange(0, i as int) =~= tv);
        }
        buf.append(")");
    }
    buf
}


/// The `n`-th alternative name tried when `raw` is taken: `raw-n`.
pub open spec fn candidate(raw: Seq<char>, n: nat) -> Seq<char> {
    raw + "-"@ + text::dec(n)
}

/// Different suffixes give different candidates.
pub proof fn lemma_candidate_injective(raw: Seq<char>, a: nat, b: nat)
    requires
        candidate(raw, a) == candidate(raw, b),
    ensures
        a == b,
{
    reveal_strlit("-");
    let k = raw.len() + 1;
    assert(candidate(raw, a).subrange(k as int, candidate(raw, a).len() as int) =~= text::dec(a));
    assert(candidate(raw, b).subrange(k as int, candidate(raw, b).len() as int) =~= text::dec(b));
    text::lemma_dec_injective(a, b);
}

/// `raw` when it is free, else the first `raw-n` (n = 2, 3, ...) that is.
pub open spec fn is_unique_name(raw: Seq<char>, existing: Seq<Seq<char>>, r: Seq<char>) -> bool {
    if !existing.contains(raw) {
        r == raw
    } else {
        exists|n: nat| n >= 2 && r == candidate(raw, n) && !existing.contains(r)
            && forall|m: nat| 2 <= m < n ==> existing.contains(#[trigger] candidate(raw, m))
    }
}

/// The candidates `raw-2 .. raw-(n-1)`.
pub open spec fn candidates_below(raw: Seq<char>, n: nat) -> Seq<Seq<char>> {
    Seq::new((n - 2) as nat, |i: int| candidate(raw, (i + 2) as nat))
}

/// Not every candidate below `existing.len() + 2` can be taken.
proof fn lemma_some_candidate_free(raw: Seq<char>, existing: Seq<Seq<char>>, n: nat)
    requires
        n >= 2,
        forall|m: nat| 2 <= m < n ==> existing.contains(#[trigger] candidate(raw, m)),
    ensures
        n <= existing.len() + 2,
{
    let cs = candidates_below(raw, n);
    assert forall|i: int, j: int| 0 <= i < cs.len() && 0 <= j < cs.len() && i != j implies cs[i] != cs[j] by {
        if cs[i] == cs[j] {
            lemma_candidate_injective(raw, (i + 2) as nat, (j + 2) as nat);
        }
    }
    assert(cs.no_duplicates());
    cs.unique_seq_to_set();
    existing.lemma_cardinality_of_set();
    assert forall|x: Seq<char>| cs.to_set().contains(x) implies existing.to_set().contains(x) by {
        let i = choose|i: int| 0 <= i < cs.len() && cs[i] == x;
        assert(existing.contains(candidate(raw, (i + 2) as nat)));
    }
    vstd::set_lib::lemma_len_subset(cs.to_set(), existing.to_set());
}

/// A tool name not yet in `existing`: `raw` itself, or `raw-2`, `raw-3`, ...
pub fn unique_name(raw: &str, existing: &Vec<String>) -> (r: String)
    ensures
        is_unique_name(raw@, ir::str_views(existing@), r@),
{
    let ghost ev = ir::str_views(existing@);
    if !list_has(existing, raw) {
        return raw.to_owned();
    }
    let mut n: u128 = 2;
    loop
        invariant
            2 <= n <= ev.len() + 2,
            ev == ir::str_views(existing@),
            ev.len() == existing.len(),
            ev.contains(raw@),
            forall|m: nat| 2 <= m < n ==> ev.contains(#[trigger] candidate(raw@, m)),
        decreases ev.len() + 2 - n,
    {
        let mut cand = raw.to_owned();
        cand.append("-");
        text::push_dec(&mut cand, n);
        if !list_has(existing, cand.as_str()) {
            proof {
                assert(cand@ == candidate(raw@, n as nat));
            }
            return cand;
        }
        proof {
            assert(cand@ == candidate(raw@, n as nat));
            assert forall|m: nat| 2 <= m < n + 1 implies ev.contains(#[trigger] candidate(raw@, m)) by {}
            lemma_some_candidate_free(raw@, ev, (n + 1) as nat);
        }
        n = n + 1;
    }
}

/// JSON object members as character sequences and values.
pub type Members = Seq<(Seq<char>, JsonV)>;

/// `m` with member `k` set to `v`: replaced where it is, else appended.
pub open spec fn obj_put(m: Members, k: Seq<char>, v: JsonV) -> Members
    decreases m.len(),
{
    if m.len() == 0 {
        seq![(k, v)]
    } else if m[0].0 == k {
        seq![(k, v)] + m.drop_first()
    } else {
        seq![m[0]] + obj_put(m.drop_first(), k, v)
    }
}

/// `m` with every member of `over` set in turn.
pub open spec fn obj_put_all(m: Members, over: Members) -> Members
    decreases over.len(),
{
    if over.len() == 0 {
        m
    } else {
        obj_put(obj_put_all(m, over.drop_last()), over.last().0, over.last().1)
    }
}

/// The MCP hints an HTTP method implies: `(readOnly, destructive, idempotent)`.
pub open spec fn method_hints(m: HttpMethod) -> Option<(bool, bool, bool)> {
    match m {
        HttpMethod::Get | HttpMethod::Head | HttpMethod::Options | HttpMethod::Trace => Some((true, false, true)),
        HttpMethod::Put | HttpMethod::Delete => Some((false, true, true)),
        HttpMethod::Patch => Some((false, true, false)),
        HttpMethod::Post => None,
    }
}

/// The hint members derived from the method, then `title` from the summary.
pub open spec fn base_annotations(m: HttpMethod, summary: Option<Seq<char>>) -> Members {
    let hints: Members = match method_hints(m) {
        Some((r, d, i)) => seq![
            ("readOnlyHint"@, JsonV::Bool(r)),
            ("destructiveHint"@, JsonV::Bool(d)),
            ("idempotentHint"@, JsonV::Bool(i)),
        ],
        None => seq![],
    };
    match summary {
        Some(s) => hints.push(("title"@, JsonV::Str(s))),
        None => hints,
    }
}

/// The MCP `annotations` object of a tool: method-derived hints and the
/// summary as `title`, each overridden field by field by the operation's
/// `x-mcp-annotations` members.
pub open spec fn annotations_of(m: HttpMethod, summary: Option<Seq<char>>, over: Option<Members>) -> JsonV {
    JsonV::Object(match over {
        Some(o) => obj_put_all(base_annotations(m, summary), o),
        None => base_annotations(m, summary),
    })
}

/// Sets member `k` of `m` to `v`.
pub(crate) fn members_put(m: &mut Vec<(String, Json)>, k: String, v: Json)
    ensures
        json::jv_members(final(m)@) == obj_put(json::jv_members(old(m)@), k@, v@),
{
    let ghost s = json::jv_members(m@);
    proof {
        json::lemma_jv_members(m@);
        assert(s.subrange(0, 0) + obj_put(s.subrange(0, s.len() as int), k@, v@) =~= obj_put(s, k@, v@)) by {
            assert(s.subrange(0, s.len() as int) =~= s);
        }
    }
    let mut i: usize = 0;
    while i < m.len()
        invariant
            i <= m.len(),
            s == json::jv_members(m@),
            s == json::jv_members(old(m)@),
            s.len() == m@.len(),
            forall|j: int| 0 <= j < m@.len() ==> #[trigger] s[j] == (m@[j].0@, m@[j].1@),
            obj_put(s, k@, v@) == s.subrange(0, i as int) + obj_put(s.subrange(i as int, s.len() as int), k@, v@),
        decreases m.len() - i,
    {
        let ghost rest = s.subrange(i as int, s.len() as int);
        proof {
            assert(rest[0] == s[i as int]);
            assert(rest.drop_first() =~= s.subrange(i + 1, s.len() as int));
        }
        if crate::json::str_eq(m[i].0.as_str(), k.as_str()) {
            let ghost old_m = m@;
            let ghost kv = k@;
            let ghost vv = v@;
            m.remove(i);
            m.insert(i, (k, v));
            proof {
                assert(rest[0].0 == kv);
                assert(obj_put(rest, kv, vv) == seq![(kv, vv)] + rest.drop_first());
                json::lemma_jv_members(m@);
                let target = s.subrange(0, i as int) + (seq![(kv, vv)] + rest.drop_first());
                assert(m@.len() == old_m.len());
                assert forall|j: int| 0 <= j < m@.len() implies json::jv_members(m@)[j] == target[j] by {
                    if j < i {
                        assert(m@[j] == old_m[j]);
                    } else if j > i {
                        assert(m@[j] == old_m[j]);
                        assert(target[j] == rest.drop_first()[j - i - 1]);
                    } else {
                        assert(m@[j].0@ == kv);
                    }
                }
                assert(json::jv_members(m@) =~= target);
            }
            return;
        }
        proof {
            assert(s.subrange(0, i + 1) =~= s.subrange(0, i as int) + seq![rest[0]]);
        }
        i = i + 1;
    }
    m.push((k, v));
    proof {
        json::lemma_jv_members(m@);
        assert(json::jv_members(m@) =~= s.subrange(0, i as int) + seq![(k@, v@)]);
    }
}

/// A JSON boolean member.
fn bool_member(name: &str, b: bool) -> (r: (String, Json))
    ensures
        r.0@ == name@,
        r.1@ == JsonV::Bool(b),
{
    (name.to_owned(), Json::Bool(b))
}

/// The MCP `annotations` block for one tool.
pub fn derive_annotations(op: &OperationInfo) -> (r: Json)
    ensures
        r@ == annotations_of(op.method, opt_view(op.summary), match op.mcp_annotations {
            Some(o) => Some(json::jv_members(o@)),
            None => None,
        }),
{
    proof {
        reveal_strlit("readOnlyHint");
        reveal_strlit("destructiveHint");
        reveal_strlit("idempotentHint");
        reveal_strlit("title");
    }
    let mut map: Vec<(String, Json)> = Vec::new();
    let hints: Option<(bool, bool, bool)> = match op.method {
        HttpMethod::Get | HttpMethod::Head | HttpMethod::Options | HttpMethod::Trace => Some((true, false, true)),
        HttpMethod::Put | HttpMethod::Delete => Some((false, true, true)),
        HttpMethod::Patch => Some((false, true, false)),
        HttpMethod::Post => None,
    };
    match hints {
        Some((ro, de, id)) => {
            map.push(bool_member("readOnlyHint", ro));
            map.push(bool_member("destructiveHint", de));
            map.push(bool_member("idempotentHint", id));
        }
        None => {}
    }
    match &op.summary {
        Some(s) => map.push(("title".to_owned(), Json::Str(s.clone()))),
        None => {}
    }
    proof {
        json::lemma_jv_members(map@);
        assert(json::jv_members(map@) =~= base_annotations(op.method, opt_view(op.summary)));
    }
    match &op.mcp_annotations {
        Some(over) => {
            let ghost ov = json::jv_members(over@);
            let ghost base = json::jv_members(map@);
            proof {
                json::lemma_jv_members(over@);
            }
            let mut i: usize = 0;
            while i < over.len()
                invariant
                    i <= over.len(),
                    ov == json::jv_members(over@),
                    ov.len() == over@.len(),
                    forall|j: int| 0 <= j < over@.len() ==> #[trigger] ov[j] == (over@[j].0@, over@[j].1@),
                    json::jv_members(map@) == obj_put_all(base, ov.subrange(0, i as int)),
                decreases over.len() - i,
            {
                let v = json::copy_json(&over[i].1);
                members_put(&mut map, over[i].0.clone(), v);
                proof {
                    let t = ov.subrange(0, i + 1);
                    assert(t.drop_last() =~= ov.subrange(0, i as int));
                    assert(t.last() == ov[i as int]);
                }
                i = i + 1;
            }
            proof {
                assert(ov.subrange(0, i as int) =~= ov);
            }
        }
        None => {}
    }
    Json::Object(map)
}

/// The auth profile a tool dispatches against, and the `--spall-auth-tool`
/// key that picked it: a key equal to the tool name, else one equal to the
/// raw operation id, else the `x-mcp-auth-profile` extension with no key.
pub open spec fn auth_profile_of(
    op_id: Seq<char>,
    name: Seq<char>,
    ext: Option<Seq<char>>,
    auth_tool: PairSeq,
) -> (Option<Seq<char>>, Option<Seq<char>>) {
    if strmap::lookup(auth_tool, name) is Some {
        (strmap::lookup(auth_tool, name), Some(name))
    } else if op_id != name && strmap::lookup(auth_tool, op_id) is Some {
        (strmap::lookup(auth_tool, op_id), Some(op_id))
    } else {
        (ext, None)
    }
}

/// The value stored under `k` among `pairs` (first match).
fn pairs_get(pairs: &Vec<(String, String)>, k: &str) -> (r: Option<String>)
    ensures
        opt_view(r) == strmap::lookup(crate::order::pair_views(pairs@), k@),
{
    match strmap::map_get(pairs, k) {
        Some(v) => Some(v.clone()),
        None => None,
    }
}

/// Pick the auth profile a tool should dispatch against, and the
/// `--spall-auth-tool` key that matched, if any.
pub fn resolve_auth_profile(
    op: &OperationInfo,
    name: &str,
    auth_tool: &Vec<(String, String)>,
) -> (r: (Option<String>, Option<String>))
    ensures
        (opt_view(r.0), opt_view(r.1)) == auth_profile_of(op.operation_id@, name@,
            opt_view(op.mcp_auth_profile), crate::order::pair_views(auth_tool@)),
{
    match pairs_get(auth_tool, name) {
        Some(p) => return (Some(p), Some(name.to_owned())),
        None => {}
    }
    if !crate::json::str_eq(op.operation_id.as_str(), name) {
        match pairs_get(auth_tool, op.operation_id.as_str()) {
            Some(p) => return (Some(p), Some(op.operation_id.clone())),
            None => {}
        }
    }
    (op.mcp_auth_profile.clone(), None)
}

/// The truncation order: by first tag, then by position in the spec.
pub open spec fn key_lt(a: (Seq<char>, int), b: (Seq<char>, int)) -> bool {
    crate::order::lex_lt(a.0, b.0) || (a.0 == b.0 && a.1 < b.1)
}

/// How many of `keys` come before `e` in the truncation order.
pub open spec fn count_below(keys: Seq<(Seq<char>, int)>, e: (Seq<char>, int)) -> nat
    decreases keys.len(),
{
    if keys.len() == 0 {
        0
    } else {
        count_below(keys.drop_last(), e) + if key_lt(keys.last(), e) { 1nat } else { 0nat }
    }
}

/// The truncation key of each filtered operation.
pub open spec fn trunc_keys(ops: Seq<OperationInfo>, idx: Seq<usize>) -> Seq<(Seq<char>, int)> {
    idx.map_values(|i: usize| (first_tag_of(ir::str_views(ops[i as int].tags@)), i as int))
}

/// Which filtered operations survive truncation to `cap`: those with fewer
/// than `cap` operations before them in (first tag, spec position) order.
/// Survivors keep their spec order.
pub open spec fn kept_by_truncation(ops: Seq<OperationInfo>, idx: Seq<usize>, cap: nat) -> Seq<usize> {
    let keys = trunc_keys(ops, idx);
    idx.filter(|i: usize| count_below(keys, (first_tag_of(ir::str_views(ops[i as int].tags@)), i as int)) < cap)
}

/// How many of `keys` come before `e`.
fn count_below_exec(ops: &Vec<OperationInfo>, idx: &Vec<usize>, e_tag: &str, e_idx: usize) -> (n: usize)
    requires
        forall|k: int| 0 <= k < idx@.len() ==> #[trigger] idx@[k] < ops@.len(),
    ensures
        n == count_below(trunc_keys(ops@, idx@), (e_tag@, e_idx as int)),
{
    let ghost keys = trunc_keys(ops@, idx@);
    let mut n: usize = 0;
    let mut j: usize = 0;
    while j < idx.len()
        invariant
            j <= idx.len(),
            keys == trunc_keys(ops@, idx@),
            forall|k: int| 0 <= k < idx@.len() ==> #[trigger] idx@[k] < ops@.len(),
            n == count_below(keys.subrange(0, j as int), (e_tag@, e_idx as int)),
            n <= j,
        decreases idx.len() - j,
    {
        let t = first_tag(&ops[idx[j]]);
        proof {
            let s = keys.subrange(0, j + 1);
            assert(s.drop_last() =~= keys.subrange(0, j as int));
            assert(s.last() == keys[j as int]);
        }
        if crate::order::str_lt(t, e_tag) || (crate::json::str_eq(t, e_tag) && idx[j] < e_idx) {
            n = n + 1;
        }
        j = j + 1;
    }
    proof {
        assert(keys.subrange(0, j as int) =~= keys);
    }
    n
}

/// Pick the first `cap` operations under a deterministic ordering (first
/// tag, then spec position) and return them in spec order.
pub fn truncate_deterministically(ops: &Vec<OperationInfo>, filtered: &Vec<usize>, cap: usize) -> (r: Vec<usize>)
    requires
        forall|k: int| 0 <= k < filtered@.len() ==> #[trigger] filtered@[k] < ops@.len(),
    ensures
        r@ == kept_by_truncation(ops@, filtered@, cap as nat),
{
    let ghost keys = trunc_keys(ops@, filtered@);
    let ghost f = |i: usize| count_below(keys, (first_tag_of(ir::str_views(ops@[i as int].tags@)), i as int)) < cap;
    let mut out: Vec<usize> = Vec::new();
    let mut j: usize = 0;
    while j < filtered.len()
        invariant
            j <= filtered.len(),
            keys == trunc_keys(ops@, filtered@),
            f == (|i: usize| count_below(keys, (first_tag_of(ir::str_views(ops@[i as int].tags@)), i as int)) < cap),
            forall|k: int| 0 <= k < filtered@.len() ==> #[trigger] filtered@[k] < ops@.len(),
            out@ == filtered@.subrange(0, j as int).filter(f),
        decreases filtered.len() - j,
    {
        let i = filtered[j];
        let t = first_tag(&ops[i]);
        let n = count_below_exec(ops, filtered, t, i);
        proof {
            let s = filtered@.subrange(0, j + 1);
            assert(s.drop_last() =~= filtered@.subrange(0, j as int));
            assert(s.last() == i);
            assert(s.filter(f) == s.drop_last().filter(f) + (if f(i) { seq![i] } else { seq![] })) by {
                reveal(Seq::filter);
                if f(i) {
                    assert(s.filter(f) =~= s.drop_last().filter(f).push(i));
                } else {
                    assert(s.filter(f) =~= s.drop_last().filter(f));
                }
            }
        }
        if n < cap {
            out.push(i);
            proof {
                assert(out@ =~= filtered@.subrange(0, j as int).filter(f) + seq![i]);
            }
        } else {
            proof {
                assert(filtered@.subrange(0, j as int).filter(f) + Seq::<usize>::empty() =~= filtered@.subrange(0, j as int).filter(f));
            }
        }
        j = j + 1;
    }
    proof {
        assert(filtered@.subrange(0, j as int) =~= filtered@);
    }
    out
}

/// `unique_name` picks exactly one name.
pub proof fn lemma_unique_name_determined(raw: Seq<char>, existing: Seq<Seq<char>>, r1: Seq<char>, r2: Seq<char>)
    requires
        is_unique_name(raw, existing, r1),
        is_unique_name(raw, existing, r2),
    ensures
        r1 == r2,
{
    if existing.contains(raw) {
        let n1 = choose|n: nat| n >= 2 && r1 == candidate(raw, n) && !existing.contains(r1)
            && forall|m: nat| 2 <= m < n ==> existing.contains(#[trigger] candidate(raw, m));
        let n2 = choose|n: nat| n >= 2 && r2 == candidate(raw, n) && !existing.contains(r2)
            && forall|m: nat| 2 <= m < n ==> existing.contains(#[trigger] candidate(raw, m));
        if n1 < n2 {
            assert(existing.contains(candidate(raw, n1)));
        } else if n2 < n1 {
            assert(existing.contains(candidate(raw, n2)));
        }
    }
}

/// The name `unique_name` gives `raw` among `existing`.
pub open spec fn unique_of(raw: Seq<char>, existing: Seq<Seq<char>>) -> Seq<char> {
    choose|r: Seq<char>| is_unique_name(raw, existing, r)
}

/// One tool in the dispatch registry.
pub struct ToolEntry {
    /// Position of the operation in the spec.
    pub op_index: usize,
    pub description: String,
    pub input_schema: Json,
    pub annotations: Json,
    /// The auth profile to dispatch against instead of the default entry.
    pub auth_profile: Option<String>,
}

/// What a registry entry holds.
pub struct ToolView {
    pub name: Seq<char>,
    pub op_index: int,
    pub description: Seq<char>,
    pub input_schema: JsonV,
    pub annotations: JsonV,
    pub auth_profile: Option<Seq<char>>,
}

/// The view of a registry entry.
pub open spec fn tool_view(e: (String, ToolEntry)) -> ToolView {
    ToolView {
        name: e.0@,
        op_index: e.1.op_index as int,
        description: e.1.description@,
        input_schema: e.1.input_schema@,
        annotations: e.1.annotations@,
        auth_profile: opt_view(e.1.auth_profile),
    }
}

/// The views of a registry.
pub open spec fn registry_view(r: Seq<(String, ToolEntry)>) -> Seq<ToolView> {
    r.map_values(|e: (String, ToolEntry)| tool_view(e))
}

/// The `indexmap` crate's insertion-ordered map, which holds the tool
/// registry keyed by tool name.
#[verifier::external_type_specification]
#[verifier::external_body]
#[verifier::reject_recursive_types(K)]
#[verifier::reject_recursive_types(V)]
#[verifier::reject_recursive_types(S)]
pub struct ExIndexMap<K, V, S>(indexmap::IndexMap<K, V, S>);

/// The tool registry: tool names to their entries, in insertion order.
pub type ToolRegistry = indexmap::IndexMap<String, ToolEntry>;

/// The entries a registry map holds, in its order, each with its key as
/// the name.
pub uninterp spec fn registry_entries(m: indexmap::IndexMap<String, ToolEntry>) -> Seq<ToolView>;

/// The position of the entry named `name` (the first, and in a map the only
/// one).
pub open spec fn entry_position(reg: Seq<ToolView>, name: Seq<char>) -> Option<int>
    decreases reg.len(),
{
    if reg.len() == 0 {
        None
    } else if reg[0].name == name {
        Some(0)
    } else {
        match entry_position(reg.drop_first(), name) {
            Some(i) => Some(i + 1),
            None => None,
        }
    }
}

/// `IndexMap::from_iter` over pairs with distinct keys: each is inserted
/// in turn and, its key being new, appended, so the map holds the pairs in
/// their order.
#[verifier::external_body]
fn registry_from(v: Vec<(String, ToolEntry)>) -> (m: ToolRegistry)
    requires
        registry_view(v@).map_values(|t: ToolView| t.name).no_duplicates(),
    ensures
        registry_entries(m) == registry_view(v@),
{
    v.into_iter().collect()
}

/// `IndexMap::len`: the number of entries.
#[verifier::external_body]
pub(crate) fn registry_len(m: &ToolRegistry) -> (n: usize)
    ensures
        n == registry_entries(*m).len(),
{
    m.len()
}

/// `IndexMap::get_index`: the name and entry at position `i`.
#[verifier::external_body]
pub(crate) fn registry_at(m: &ToolRegistry, i: usize) -> (r: (&String, &ToolEntry))
    requires
        i < registry_entries(*m).len(),
    ensures
        tool_view((*r.0, *r.1)) == registry_entries(*m)[i as int],
{
    m.get_index(i).unwrap()
}

/// `IndexMap::get_index_of`: the position of the entry named `name`.
#[verifier::external_body]
pub(crate) fn registry_position(m: &ToolRegistry, name: &str) -> (r: Option<usize>)
    ensures
        match r {
            Some(i) => entry_position(registry_entries(*m), name@) == Some(i as int),
            None => entry_position(registry_entries(*m), name@) is None,
        },
{
    m.get_index_of(name)
}

/// The positions of the operations the tag filter admits, in spec order.
pub open spec fn admitted(ops: Seq<OperationInfo>, wanted: Seq<Seq<char>>, unwanted: Seq<Seq<char>>) -> Seq<usize> {
    Seq::new(ops.len(), |i: int| i as usize).filter(|i: usize| admits(ir::str_views(ops[i as int].tags@), wanted, unwanted))
}

/// The operations that become tools: the admitted ones, truncated to
/// `max_tools` when there are more.
pub open spec fn tool_indices(ops: Seq<OperationInfo>, wanted: Seq<Seq<char>>, unwanted: Seq<Seq<char>>, max_tools: Option<usize>) -> Seq<usize> {
    let f = admitted(ops, wanted, unwanted);
    match max_tools {
        Some(cap) => if f.len() > cap { kept_by_truncation(ops, f, cap as nat) } else { f },
        None => f,
    }
}

/// The registry built from a run of operation positions, with the
/// `--spall-auth-tool` keys that matched a tool.
pub open spec fn registry_fold(ops: Seq<OperationInfo>, idx: Seq<usize>, auth_tool: PairSeq) -> (Seq<ToolView>, Seq<Seq<char>>)
    decreases idx.len(),
{
    if idx.len() == 0 {
        (seq![], seq![])
    } else {
        let (reg, matched) = registry_fold(ops, idx.drop_last(), auth_tool);
        let i = idx.last() as int;
        let op = ops[i];
        let name = unique_of(sanitized(op.operation_id@), reg.map_values(|t: ToolView| t.name));
        let (profile, key) = auth_profile_of(op.operation_id@, name, opt_view(op.mcp_auth_profile), auth_tool);
        let entry = ToolView {
            name: name,
            op_index: i,
            description: description_of(opt_view(op.summary), opt_view(op.description), op.method,
                op.path_template@, ir::str_views(op.tags@)),
            input_schema: crate::mcp::schema::input_schema_of(op),
            annotations: annotations_of(op.method, opt_view(op.summary), match op.mcp_annotations {
                Some(o) => Some(json::jv_members(o@)),
                None => None,
            }),
            auth_profile: profile,
        };
        (reg.push(entry), match key { Some(k) => matched.push(k), None => matched })
    }
}

/// The `--spall-auth-tool` keys that matched no tool, in the order given.
pub open spec fn unmatched_keys(auth_tool: PairSeq, matched: Seq<Seq<char>>) -> Seq<Seq<char>> {
    auth_tool.map_values(|p: (Seq<char>, Seq<char>)| p.0).filter(|k: Seq<char>| !matched.contains(k))
}

/// The positions of the admitted operations.
pub(crate) fn admitted_exec(ops: &Vec<OperationInfo>, wanted: &Vec<String>, unwanted: &Vec<String>) -> (r: Vec<usize>)
    ensures
        r@ == admitted(ops@, ir::str_views(wanted@), ir::str_views(unwanted@)),
        forall|k: int| 0 <= k < r@.len() ==> #[trigger] r@[k] < ops@.len(),
{
    let ghost all = Seq::new(ops@.len(), |i: int| i as usize);
    let ghost f = |i: usize| admits(ir::str_views(ops@[i as int].tags@), ir::str_views(wanted@), ir::str_views(unwanted@));
    let mut out: Vec<usize> = Vec::new();
    let mut i: usize = 0;
    proof {
        assert(all.subrange(0, 0).filter(f) =~= Seq::<usize>::empty()) by {
            reveal(Seq::filter);
        }
    }
    while i < ops.len()
        invariant
            i <= ops.len(),
            all == Seq::new(ops@.len(), |i: int| i as usize),
            f == (|i: usize| admits(ir::str_views(ops@[i as int].tags@), ir::str_views(wanted@), ir::str_views(unwanted@))),
            out@ == all.subrange(0, i as int).filter(f),
            forall|k: int| 0 <= k < out@.len() ==> #[trigger] out@[k] < i,
        decreases ops.len() - i,
    {
        let keep = tag_filter_admits(&ops[i], wanted, unwanted);
        proof {
            let s = all.subrange(0, i + 1);
            assert(s.drop_last() =~= all.subrange(0, i as int));
            assert(s.last() == i);
            assert(s.filter(f) == s.drop_last().filter(f) + (if f(i) { seq![i] } else { seq![] })) by {
                reveal(Seq::filter);
                if f(i) {
                    assert(s.filter(f) =~= s.drop_last().filter(f).push(i));
                } else {
                    assert(s.filter(f) =~= s.drop_last().filter(f));
                }
            }
        }
        if keep {
            out.push(i);
            proof {
                assert(out@ =~= all.subrange(0, i as int).filter(f) + seq![i]);
            }
        } else {
            proof {
                assert(all.subrange(0, i as int).filter(f) + Seq::<usize>::empty() =~= all.subrange(0, i as int).filter(f));
            }
        }
        i = i + 1;
    }
    proof {
        assert(all.subrange(0, i as int) =~= all);
    }
    out
}

/// Whether `list` holds `s`.
fn names_have(list: &Vec<String>, s: &str) -> (b: bool)
    ensures
        b == ir::str_views(list@).contains(s@),
{
    list_has(list, s)
}

/// Build the tool registry from the spec's operations, applying the tag
/// filter and the optional cap. Tools come in spec order (or, when capped,
/// in the deterministic truncation order's survivors, in spec order).
/// Also returns the `--spall-auth-tool` keys that matched no tool.
pub fn build_registry(
    ops: &Vec<OperationInfo>,
    wanted: &Vec<String>,
    unwanted: &Vec<String>,
    max_tools: Option<usize>,
    auth_tool: &Vec<(String, String)>,
) -> (r: (ToolRegistry, Vec<String>))
    ensures
        ({
            let (reg, matched) = registry_fold(ops@, tool_indices(ops@, ir::str_views(wanted@), ir::str_views(unwanted@), max_tools),
                crate::order::pair_views(auth_tool@));
            &&& registry_entries(r.0) == reg
            &&& ir::str_views(r.1@) == unmatched_keys(crate::order::pair_views(auth_tool@), matched)
        }),
        registry_entries(r.0).map_values(|t: ToolView| t.name).no_duplicates(),
{
    let filtered = admitted_exec(ops, wanted, unwanted);
    let ordered = match max_tools {
        Some(cap) => if filtered.len() > cap { truncate_deterministically(ops, &filtered, cap) } else { filtered },
        None => filtered,
    };
    let ghost idx = tool_indices(ops@, ir::str_views(wanted@), ir::str_views(unwanted@), max_tools);
    let ghost at = crate::order::pair_views(auth_tool@);
    proof {
        assert(ordered@ == idx);
        assert forall|k: int| 0 <= k < ordered@.len() implies #[trigger] ordered@[k] < ops@.len() by {
            let f = admitted(ops@, ir::str_views(wanted@), ir::str_views(unwanted@));
            if ordered@ != f {
                let g = |i: usize| count_below(trunc_keys(ops@, f), (first_tag_of(ir::str_views(ops@[i as int].tags@)), i as int)) < max_tools.unwrap() as nat;
                assert(f.filter(g).contains(ordered@[k]));
                f.lemma_filter_contains_rev(g, ordered@[k]);
            }
        }
    }
    let mut reg: Vec<(String, ToolEntry)> = Vec::new();
    let mut names: Vec<String> = Vec::new();
    let mut matched: Vec<String> = Vec::new();
    let mut j: usize = 0;
    while j < ordered.len()
        invariant
            j <= ordered.len(),
            ordered@ == idx,
            at == crate::order::pair_views(auth_tool@),
            forall|k: int| 0 <= k < ordered@.len() ==> #[trigger] ordered@[k] < ops@.len(),
            reg@.len() == j,
            (registry_view(reg@), ir::str_views(matched@)) == registry_fold(ops@, idx.subrange(0, j as int), at),
            ir::str_views(names@) == registry_view(reg@).map_values(|t: ToolView| t.name),
            ir::str_views(names@).no_duplicates(),
        decreases ordered.len() - j,
    {
        let i = ordered[j];
        let op = &ops[i];
        let raw = sanitize_tool_name(op.operation_id.as_str());
        let name = unique_name(raw.as_str(), &names);
        proof {
            let ev = ir::str_views(names@);
            assert(is_unique_name(raw@, ev, unique_of(raw@, ev)));
            lemma_unique_name_determined(raw@, ev, name@, unique_of(raw@, ev));
            law_unique_name_is_fresh(raw@, ev, name@);
        }
        let description = build_description(op);
        let input_schema = crate::mcp::schema::operation_input_schema(op);
        let annotations = derive_annotations(op);
        let (auth_profile, key) = resolve_auth_profile(op, name.as_str(), auth_tool);
        let ghost mb = matched@;
        match key {
            Some(k) => matched.push(k),
            None => {}
        }
        let ghost rb = reg@;
        let ghost nb = names@;
        names.push(name.clone());
        reg.push((name, ToolEntry { op_index: i, description, input_schema, annotations, auth_profile }));
        proof {
            let t = idx.subrange(0, j + 1);
            assert(t.drop_last() =~= idx.subrange(0, j as int));
            assert(t.last() == i);
            assert(registry_view(reg@) =~= registry_view(rb).push(tool_view(reg@[j as int])));
            assert(ir::str_views(names@) =~= ir::str_views(nb).push(name@));
            let nv = ir::str_views(names@);
            assert forall|a: int, b: int| 0 <= a < nv.len() && 0 <= b < nv.len() && a != b implies nv[a] != nv[b] by {
                if a < nv.len() - 1 && b < nv.len() - 1 {
                    assert(nv[a] == ir::str_views(nb)[a] && nv[b] == ir::str_views(nb)[b]);
                } else if a == nv.len() - 1 {
                    assert(ir::str_views(nb).contains(nv[b]) ==> nv[b] != name@);
                    assert(nv[b] == ir::str_views(nb)[b]);
                } else {
                    assert(nv[a] == ir::str_views(nb)[a]);
                }
            }
            assert(registry_view(reg@).map_values(|t: ToolView| t.name) =~= registry_view(rb).map_values(|t: ToolView| t.name).push(name@));
            assert(ir::str_views(matched@) =~= match key { Some(k) => ir::str_views(mb).push(k@), None => ir::str_views(mb) });
        }
        j = j + 1;
    }
    proof {
        assert(idx.subrange(0, j as int) =~= idx);
    }
    let ghost mv = ir::str_views(matched@);
    let ghost keys = at.map_values(|p: (Seq<char>, Seq<char>)| p.0);
    let ghost g = |k: Seq<char>| !mv.contains(k);
    let mut unmatched: Vec<String> = Vec::new();
    let mut k: usize = 0;
    proof {
        assert(keys.subrange(0, 0).filter(g) =~= Seq::<Seq<char>>::empty()) by {
            reveal(Seq::filter);
        }
    }
    while k < auth_tool.len()
        invariant
            k <= auth_tool.len(),
            at == crate::order::pair_views(auth_tool@),
            keys == at.map_values(|p: (Seq<char>, Seq<char>)| p.0),
            mv == ir::str_views(matched@),
            g == (|k: Seq<char>| !mv.contains(k)),
            ir::str_views(unmatched@) == keys.subrange(0, k as int).filter(g),
        decreases auth_tool.len() - k,
    {
        let key = auth_tool[k].0.as_str();
        let hit = names_have(&matched, key);
        proof {
            let s = keys.subrange(0, k + 1);
            assert(s.drop_last() =~= keys.subrange(0, k as int));
            assert(s.last() == key@);
            assert(s.filter(g) == s.drop_last().filter(g) + (if g(key@) { seq![key@] } else { seq![] })) by {
                reveal(Seq::filter);
                if g(key@) {
                    assert(s.filter(g) =~= s.drop_last().filter(g).push(key@));
                } else {
                    assert(s.filter(g) =~= s.drop_last().filter(g));
                }
            }
        }
        let ghost ub = unmatched@;
        if !hit {
            unmatched.push(key.to_owned());
            proof {
                assert(ir::str_views(unmatched@) =~= ir::str_views(ub) + seq![key@]);
            }
        } else {
            proof {
                assert(ir::str_views(ub) + Seq::<Seq<char>>::empty() =~= ir::str_views(ub));
            }
        }
        k = k + 1;
    }
    proof {
        assert(keys.subrange(0, k as int) =~= keys);
    }
    (registry_from(reg), unmatched)
}

/// No `-` in `s` is directly followed by another `-`.
pub open spec fn no_double_dash(s: Seq<char>) -> bool {
    forall|i: int, j: int| 0 <= i && j == i + 1 && j < s.len() ==> !(#[trigger] s[i] == '-' && #[trigger] s[j] == '-')
}

/// Every character of `s` is allowed in a tool name and already lowercase.
pub open spec fn name_chars(s: Seq<char>) -> bool {
    forall|i: int| 0 <= i < s.len() ==> name_char_allowed(#[trigger] s[i]) && text::lower_char(s[i]) == s[i]
}

/// `dashed(raw)` uses only lowercase allowed characters and never two `-`
/// in a row.
pub proof fn lemma_dashed_shape(raw: Seq<char>)
    ensures
        name_chars(dashed(raw)),
        no_double_dash(dashed(raw)),
    decreases raw.len(),
{
    if raw.len() > 0 {
        lemma_dashed_shape(raw.drop_last());
        let p = dashed(raw.drop_last());
        let c = raw.last();
        if name_char_allowed(c) && c != '-' {
            let l = text::lower_char(c);
            assert(name_char_allowed(l) && text::lower_char(l) == l && l != '-');
            let q = p.push(l);
            assert forall|i: int| 0 <= i < q.len() implies name_char_allowed(#[trigger] q[i]) && text::lower_char(q[i]) == q[i] by {
                if i < p.len() {
                    assert(q[i] == p[i]);
                }
            }
            assert forall|i: int, j: int| 0 <= i && j == i + 1 && j < q.len() implies !(#[trigger] q[i] == '-' && #[trigger] q[j] == '-') by {
                if j < p.len() {
                    assert(q[i] == p[i] && q[j] == p[j]);
                }
            }
        } else if !(p.len() > 0 && p.last() == '-') {
            let q = p.push('-');
            assert forall|i: int| 0 <= i < q.len() implies name_char_allowed(#[trigger] q[i]) && text::lower_char(q[i]) == q[i] by {
                if i < p.len() {
                    assert(q[i] == p[i]);
                }
            }
            assert forall|i: int, j: int| 0 <= i && j == i + 1 && j < q.len() implies !(#[trigger] q[i] == '-' && #[trigger] q[j] == '-') by {
                if j < p.len() {
                    assert(q[i] == p[i] && q[j] == p[j]);
                } else {
                    assert(q[i] == p.last());
                }
            }
        }
    }
}

/// A name already in that shape comes out of `dashed` unchanged.
proof fn lemma_dashed_fixed(s: Seq<char>)
    requires
        name_chars(s),
        no_double_dash(s),
    ensures
        dashed(s) == s,
    decreases s.len(),
{
    if s.len() > 0 {
        let p = s.drop_last();
        assert forall|i: int| 0 <= i < p.len() implies name_char_allowed(#[trigger] p[i]) && text::lower_char(p[i]) == p[i] by {
            assert(p[i] == s[i]);
        }
        assert forall|i: int, j: int| 0 <= i && j == i + 1 && j < p.len() implies !(#[trigger] p[i] == '-' && #[trigger] p[j] == '-') by {
            assert(p[i] == s[i] && p[j] == s[j]);
        }
        lemma_dashed_fixed(p);
        let c = s.last();
        assert(name_char_allowed(s[s.len() - 1]));
        if c == '-' && p.len() > 0 {
            assert(!(s[p.len() - 1] == '-' && s[s.len() - 1] == '-'));
            assert(p.last() == s[p.len() - 1]);
        }
        assert(p.push(c) =~= s);
    }
}

/// Trimming `-` leaves a sequence that neither starts nor ends with `-`
/// unchanged.
proof fn lemma_trim_dash_fixed(s: Seq<char>)
    requires
        s.len() > 0,
        s[0] != '-',
        s.last() != '-',
    ensures
        text::trim_char(s, '-') == s,
{
    let pd = text::strip_pred(Some('-'));
    let a = text::lemma_trim_start(s, pd);
    if a > 0 {
        assert(pd(s[0]));
    }
    assert(s.subrange(0, s.len() as int) =~= s);
    let b = text::lemma_trim_end(s, pd);
    if b < s.len() {
        assert(pd(s[s.len() - 1]));
    }
}

/// A sanitized tool name is 1 to 64 characters long, uses only lowercase
/// characters allowed in tool names, neither starts nor ends with `-`, and
/// never holds `--`.
pub proof fn law_sanitized_tool_name(raw: Seq<char>)
    ensures
        1 <= sanitized(raw).len() <= max_tool_name_len(),
        name_chars(sanitized(raw)),
        sanitized(raw)[0] != '-',
        sanitized(raw).last() != '-',
        no_double_dash(sanitized(raw)),
        !text::contains(sanitized(raw), "--"@),
{
    reveal_strlit("op");
    reveal_strlit("--");
    let d = dashed(raw);
    lemma_dashed_shape(raw);
    let pd = text::strip_pred(Some('-'));
    let a = text::lemma_trim_start(d, pd);
    let ts = d.subrange(a, d.len() as int);
    let b = text::lemma_trim_end(ts, pd);
    let t = ts.subrange(0, b);
    assert(text::trim_char(d, '-') == t);
    assert forall|i: int| 0 <= i < t.len() implies name_char_allowed(#[trigger] t[i]) && text::lower_char(t[i]) == t[i]
        && (i == 0 ==> t[i] != '-') && (i == t.len() - 1 ==> t[i] != '-') by {
        assert(t[i] == d[a + i]);
    }
    assert forall|i: int, j: int| 0 <= i && j == i + 1 && j < t.len() implies !(#[trigger] t[i] == '-' && #[trigger] t[j] == '-') by {
        assert(t[i] == d[a + i] && t[j] == d[a + j]);
    }
    let u = if t.len() == 0 { "op"@ } else { t };
    assert(u.len() > 0 && u[0] != '-' && u.last() != '-');
    assert(name_chars(u));
    assert(no_double_dash(u));
    let r = sanitized(raw);
    if u.len() > max_tool_name_len() {
        let pre = u.subrange(0, max_tool_name_len() as int);
        let k = text::lemma_trim_end(pre, pd);
        if k == 0 {
            assert(pd(pre[0]));
        }
        assert(r == pre.subrange(0, k));
        assert forall|i: int| 0 <= i < r.len() implies name_char_allowed(#[trigger] r[i]) && text::lower_char(r[i]) == r[i] by {
            assert(r[i] == u[i]);
        }
        assert forall|i: int, j: int| 0 <= i && j == i + 1 && j < r.len() implies !(#[trigger] r[i] == '-' && #[trigger] r[j] == '-') by {
            assert(r[i] == u[i] && r[j] == u[j]);
        }
        assert(r[0] == u[0]);
    }
    if text::contains(r, "--"@) {
        let i = choose|i: int| text::occurs_at(r, "--"@, i);
        assert(r.subrange(i, i + 2)[0] == r[i] && r.subrange(i, i + 2)[1] == r[i + 1]);
        assert(!(r[i] == '-' && r[i + 1] == '-'));
    }
}

/// Sanitizing a sanitized tool name changes nothing.
pub proof fn law_sanitize_idempotent(raw: Seq<char>)
    ensures
        sanitized(sanitized(raw)) == sanitized(raw),
{
    let s = sanitized(raw);
    law_sanitized_tool_name(raw);
    lemma_dashed_fixed(s);
    lemma_trim_dash_fixed(s);
}


/// An operation carrying an unwanted tag is never admitted, whatever is
/// wanted.
pub proof fn law_unwanted_tag_rejects(tags: Seq<Seq<char>>, wanted: Seq<Seq<char>>, unwanted: Seq<Seq<char>>, t: Seq<char>)
    requires
        tags.contains(t),
        unwanted.contains(t),
    ensures
        !admits(tags, wanted, unwanted),
{
    let i = choose|i: int| 0 <= i < tags.len() && tags[i] == t;
    let j = choose|j: int| 0 <= j < unwanted.len() && unwanted[j] == t;
    assert(tags[i] == unwanted[j]);
}

/// An untagged operation is filtered as if it were tagged `default`.
pub proof fn law_untagged_is_default(wanted: Seq<Seq<char>>, unwanted: Seq<Seq<char>>)
    ensures
        admits(seq![], wanted, unwanted) == admits(seq![default_tag()], wanted, unwanted),
{
    let d = seq![default_tag()];
    if wanted.contains(default_tag()) {
        let j = choose|j: int| 0 <= j < wanted.len() && wanted[j] == default_tag();
        assert(d[0] == wanted[j]);
    }
    if tag_in(d, wanted) {
        let (i, j) = choose|i: int, j: int| 0 <= i < d.len() && 0 <= j < wanted.len() && d[i] == wanted[j];
        assert(wanted.contains(default_tag()));
    }
    if unwanted.contains(default_tag()) {
        let j = choose|j: int| 0 <= j < unwanted.len() && unwanted[j] == default_tag();
        assert(d[0] == unwanted[j]);
    }
    if tag_in(d, unwanted) {
        let (i, j) = choose|i: int, j: int| 0 <= i < d.len() && 0 <= j < unwanted.len() && d[i] == unwanted[j];
        assert(unwanted.contains(default_tag()));
    }
}

/// A unique tool name is never one of the existing names, and is the raw
/// name itself when that is free.
pub proof fn law_unique_name_is_fresh(raw: Seq<char>, existing: Seq<Seq<char>>, r: Seq<char>)
    requires
        is_unique_name(raw, existing, r),
    ensures
        !existing.contains(r),
        !existing.contains(raw) ==> r == raw,
{
}


/// The `--spall-auth-tool <tool>=<profile>` values read in order into a map
/// (a later tool overrides an earlier one), with both sides trimmed; or the
/// usage message for the first value without `=` or with an empty side.
pub open spec fn auth_tool_flags_fold(acc: PairSeq, vals: Seq<Seq<char>>) -> Result<PairSeq, Seq<char>>
    decreases vals.len(),
{
    if vals.len() == 0 {
        Ok(acc)
    } else {
        let raw = vals[0];
        match text::split_once(raw, '=') {
            None => Err("--spall-auth-tool value '"@ + raw + "' must be <tool>=<profile>"@),
            Some((t, p)) => if text::trim(t).len() == 0 || text::trim(p).len() == 0 {
                Err("--spall-auth-tool value '"@ + raw + "' has empty <tool> or <profile>"@)
            } else {
                auth_tool_flags_fold(crate::strmap::put(acc, text::trim(t), text::trim(p)), vals.drop_first())
            },
        }
    }
}

/// Read the `--spall-auth-tool` values (see `auth_tool_flags_fold`).
pub fn parse_auth_tool_flags(values: &Vec<String>) -> (r: Result<Vec<(String, String)>, crate::error::SpallCliError>)
    ensures
        match (r, auth_tool_flags_fold(seq![], ir::str_views(values@))) {
            (Ok(m), Ok(n)) => crate::order::pair_views(m@) == n,
            (Err(crate::error::SpallCliError::Usage(e)), Err(f)) => e@ == f,
            _ => false,
        },
{
    let mut out: Vec<(String, String)> = Vec::new();
    let ghost all = ir::str_views(values@);
    let mut i: usize = 0;
    proof {
        assert(all.subrange(0, all.len() as int) =~= all);
        assert(crate::order::pair_views(out@) =~= Seq::<(Seq<char>, Seq<char>)>::empty());
    }
    while i < values.len()
        invariant
            i <= values.len(),
            all == ir::str_views(values@),
            crate::strmap::keys_sorted(crate::order::pair_views(out@)),
            auth_tool_flags_fold(seq![], all) == auth_tool_flags_fold(crate::order::pair_views(out@), all.subrange(i as int, all.len() as int)),
        decreases values.len() - i,
    {
        let raw = values[i].as_str();
        proof {
            let rest = all.subrange(i as int, all.len() as int);
            assert(rest.drop_first() =~= all.subrange(i + 1, all.len() as int));
            assert(rest[0] == raw@);
        }
        let (t, p) = match text::split_once_exec(raw, '=') {
            Some(x) => x,
            None => {
                let mut m = "--spall-auth-tool value '".to_owned();
                m.append(raw);
                m.append("' must be <tool>=<profile>");
                return Err(crate::error::SpallCliError::Usage(m));
            },
        };
        let tool = text::trim_exec(t.as_str());
        let profile = text::trim_exec(p.as_str());
        if text::chars_of(tool.as_str()).len() == 0 || text::chars_of(profile.as_str()).len() == 0 {
            let mut m = "--spall-auth-tool value '".to_owned();
            m.append(raw);
            m.append("' has empty <tool> or <profile>");
            return Err(crate::error::SpallCliError::Usage(m));
        }
        crate::strmap::map_insert(&mut out, tool, profile);
        i = i + 1;
    }
    Ok(out)
}

} // verus!
