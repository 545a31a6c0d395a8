//! The request headers of a request sent on its own (paging, multipart or
//! a raw body): configured defaults, `--spall-header` flags, the cookie
//! parameters, the auth headers and the content type, gathered the way an
//! HTTP header map holds them.

use vstd::prelude::*;
use crate::history::is_token;
use crate::order::{self, PairSeq};
use crate::text;

verus! {

/// The header name `HeaderName::from_bytes` makes of `s`: its ASCII
/// lowercase, when `s` is an HTTP token of at most 65535 characters.
pub open spec fn header_name_of(s: Seq<char>) -> Option<Seq<char>> {
    if is_token(s) && s.len() <= 65535 {
        Some(text::lower(s))
    } else {
        None
    }
}

/// `HeaderName::from_bytes`: a name is accepted exactly when it is an HTTP
/// token of at most 65535 bytes (every token character is one byte), and
/// it is kept in ASCII lowercase.
#[verifier::external_body]
fn header_name(s: &str) -> (r: Option<String>)
    ensures
        match r {
            Some(n) => header_name_of(s@) == Some(n@),
            None => header_name_of(s@) is None,
        },
{
    reqwest::header::HeaderName::from_bytes(s.as_bytes()).ok().map(|n| n.as_str().to_owned())
}

/// A character a header value may hold: anything but a control character,
/// tab excepted.
pub open spec fn value_char_ok(c: char) -> bool {
    ((c as u32) >= 32 && (c as u32) != 127) || c == '\t'
}

/// Whether `HeaderValue::from_str` accepts `s`.
pub open spec fn value_ok(s: Seq<char>) -> bool {
    forall|i: int| 0 <= i < s.len() ==> value_char_ok(#[trigger] s[i])
}

/// `HeaderValue::from_str`: a value is accepted exactly when none of its
/// bytes is a control byte other than tab (the bytes of a non-ASCII
/// character are all accepted).
#[verifier::external_body]
fn header_value_ok(s: &str) -> (r: bool)
    ensures
        r == value_ok(s@),
{
    reqwest::header::HeaderValue::from_str(s).is_ok()
}

/// A header map after `insert(k, v)`: the value of an existing name is
/// replaced where it stands, a new name goes last.
pub open spec fn map_insert(m: PairSeq, k: Seq<char>, v: Seq<char>) -> PairSeq
    decreases m.len(),
{
    if m.len() == 0 {
        seq![(k, v)]
    } else if m[0].0 == k {
        seq![(k, v)] + m.drop_first()
    } else {
        seq![m[0]] + map_insert(m.drop_first(), k, v)
    }
}

/// The name a header gets, `x-unknown` when its name is refused.
pub open spec fn name_or_unknown(k: Seq<char>) -> Seq<char> {
    match header_name_of(k) {
        Some(n) => n,
        None => "x-unknown"@,
    }
}

/// The value a header gets, `fallback` when its value is refused.
pub open spec fn value_or(v: Seq<char>, fallback: Seq<char>) -> Seq<char> {
    if value_ok(v) { v } else { fallback }
}

/// Inserting pairs in turn, each name and value replaced by its fallback
/// when refused.
pub open spec fn insert_lenient(m: PairSeq, pairs: PairSeq) -> PairSeq
    decreases pairs.len(),
{
    if pairs.len() == 0 {
        m
    } else {
        map_insert(insert_lenient(m, pairs.drop_last()), name_or_unknown(pairs.last().0), value_or(pairs.last().1, "invalid"@))
    }
}

/// Inserting pairs in turn, skipping any whose name or value is refused.
pub open spec fn insert_valid(m: PairSeq, pairs: PairSeq) -> PairSeq
    decreases pairs.len(),
{
    if pairs.len() == 0 {
        m
    } else {
        let rest = insert_valid(m, pairs.drop_last());
        match header_name_of(pairs.last().0) {
            Some(n) => if value_ok(pairs.last().1) {
                map_insert(rest, n, pairs.last().1)
            } else {
                rest
            },
            None => rest,
        }
    }
}

/// The headers of a request sent on its own: the configured defaults and
/// the `--spall-header` flags (a refused name becomes `x-unknown`, a
/// refused value `invalid`), the cookie header (emptied when refused), the
/// auth headers (skipped when refused) and the content type (refused:
/// `application/octet-stream`), each later one replacing an earlier one of
/// the same name.
pub open spec fn request_headers_of(
    defaults: PairSeq,
    flags: Seq<Seq<char>>,
    cookie: Option<Seq<char>>,
    auth: PairSeq,
    content_type: Option<Seq<char>>,
) -> PairSeq {
    let a = insert_lenient(insert_lenient(seq![], defaults), crate::http::header_flag_pairs(flags));
    let b = match cookie {
        Some(c) => map_insert(a, "cookie"@, value_or(c, ""@)),
        None => a,
    };
    let c = insert_valid(b, auth);
    match content_type {
        Some(ct) => map_insert(c, "content-type"@, value_or(ct, "application/octet-stream"@)),
        None => c,
    }
}

/// Sets `k` to `v` in the header map `m` (see `map_insert`).
fn insert_exec(m: &mut Vec<(String, String)>, k: String, v: String)
    ensures
        order::pair_views(final(m)@) == map_insert(order::pair_views(old(m)@), k@, v@),
{
    let ghost s = order::pair_views(m@);
    let mut i: usize = 0;
    proof {
        assert(s.subrange(0, s.len() as int) =~= s);
        assert(s.subrange(0, 0) + map_insert(s, k@, v@) =~= map_insert(s, k@, v@));
    }
    while i < m.len()
        invariant
            i <= m.len(),
            s == order::pair_views(m@),
            m@ == old(m)@,
            map_insert(s, k@, v@) == s.subrange(0, i as int) + map_insert(s.subrange(i as int, s.len() as int), k@, v@),
            forall|j: int| 0 <= j < i ==> s[j].0 != k@,
        decreases m.len() - i,
    {
        proof {
            let rest = s.subrange(i as int, s.len() as int);
            assert(rest[0] == s[i as int]);
            assert(rest.drop_first() =~= s.subrange(i + 1, s.len() as int));
        }
        if crate::json::str_eq(m[i].0.as_str(), k.as_str()) {
            let ghost kv = k@;
            let ghost vv = v@;
            m.set(i, (k, v));
            proof {
                let rest = s.subrange(i as int, s.len() as int);
                assert(rest[0].0 == kv);
                assert(map_insert(rest, kv, vv) == seq![(kv, vv)] + rest.drop_first());
                assert(order::pair_views(m@) =~= s.subrange(0, i as int) + (seq![(kv, vv)] + rest.drop_first()));
            }
            return;
        }
        proof {
            let rest = s.subrange(i as int, s.len() as int);
            assert(s.subrange(0, i + 1) =~= s.subrange(0, i as int) + seq![rest[0]]);
        }
        i = i + 1;
    }
    m.push((k, v));
    proof {
        assert(order::pair_views(m@) =~= s.subrange(0, i as int) + seq![(k@, v@)]);
    }
}

/// Inserts each pair leniently (see `insert_lenient`).
fn insert_all_lenient(m: &mut Vec<(String, String)>, pairs: &Vec<(String, String)>)
    ensures
        order::pair_views(final(m)@) == insert_lenient(order::pair_views(old(m)@), order::pair_views(pairs@)),
{
    let ghost start = order::pair_views(m@);
    let ghost pv = order::pair_views(pairs@);
    let mut i: usize = 0;
    proof {
        assert(pv.subrange(0, 0) =~= Seq::<(Seq<char>, Seq<char>)>::empty());
    }
    while i < pairs.len()
        invariant
            i <= pairs.len(),
            pv == order::pair_views(pairs@),
            order::pair_views(m@) == insert_lenient(start, pv.subrange(0, i as int)),
        decreases pairs.len() - i,
    {
        proof {
            assert(pv.subrange(0, i + 1).drop_last() =~= pv.subrange(0, i as int));
            assert(pv.subrange(0, i + 1).last() == pv[i as int]);
        }
        let name = match header_name(pairs[i].0.as_str()) {
            Some(n) => n,
            None => "x-unknown".to_owned(),
        };
        let value = if header_value_ok(pairs[i].1.as_str()) { pairs[i].1.clone() } else { "invalid".to_owned() };
        insert_exec(m, name, value);
        i = i + 1;
    }
    proof {
        assert(pv.subrange(0, pairs@.len() as int) =~= pv);
    }
}

/// The headers of a request sent on its own (see `request_headers_of`);
/// `cookie` is the joined cookie-parameter header, when there is one.
pub fn request_headers(
    defaults: &Vec<(String, String)>,
    flags: &Vec<String>,
    cookie: Option<String>,
    auth: &Vec<(String, String)>,
    content_type: Option<String>,
) -> (r: Vec<(String, String)>)
    ensures
        order::pair_views(r@) == request_headers_of(
            order::pair_views(defaults@),
            text::views(flags@),
            match cookie { Some(c) => Some(c@), None => None },
            order::pair_views(auth@),
            match content_type { Some(c) => Some(c@), None => None },
        ),
{
    let mut m: Vec<(String, String)> = Vec::new();
    proof {
        assert(order::pair_views(m@) =~= Seq::<(Seq<char>, Seq<char>)>::empty());
    }
    insert_all_lenient(&mut m, defaults);
    let mut flag_pairs: Vec<(String, String)> = Vec::new();
    let mut i: usize = 0;
    while i < flags.len()
        invariant
            i <= flags.len(),
            order::pair_views(flag_pairs@) == crate::http::header_flag_pairs(text::views(flags@.subrange(0, i as int))),
        decreases flags.len() - i,
    {
        proof {
            let t = text::views(flags@.subrange(0, i + 1));
            assert(t.drop_last() =~= text::views(flags@.subrange(0, i as int)));
            assert(t.last() == flags@[i as int]@);
        }
        let ghost before = flag_pairs@;
        if let Some(p) = crate::http::parse_header_flag(flags[i].as_str()) {
            flag_pairs.push(p);
            proof {
                assert(order::pair_views(flag_pairs@) =~= order::pair_views(before).push((flag_pairs@.last().0@, flag_pairs@.last().1@)));
            }
        }
        i = i + 1;
    }
    proof {
        assert(flags@.subrange(0, flags@.len() as int) =~= flags@);
    }
    insert_all_lenient(&mut m, &flag_pairs);
    if let Some(c) = cookie {
        let value = if header_value_ok(c.as_str()) { c } else { "".to_owned() };
        insert_exec(&mut m, "cookie".to_owned(), value);
    }
    let ghost base = order::pair_views(m@);
    let ghost av = order::pair_views(auth@);
    let mut j: usize = 0;
    proof {
        assert(av.subrange(0, 0) =~= Seq::<(Seq<char>, Seq<char>)>::empty());
    }
    while j < auth.len()
        invariant
            j <= auth.len(),
            av == order::pair_views(auth@),
            order::pair_views(m@) == insert_valid(base, av.subrange(0, j as int)),
        decreases auth.len() - j,
    {
        proof {
            assert(av.subrange(0, j + 1).drop_last() =~= av.subrange(0, j as int));
            assert(av.subrange(0, j + 1).last() == av[j as int]);
        }
        if let Some(n) = header_name(auth[j].0.as_str()) {
            if header_value_ok(auth[j].1.as_str()) {
                insert_exec(&mut m, n, auth[j].1.clone());
            }
        }
        j = j + 1;
    }
    proof {
        assert(av.subrange(0, auth@.len() as int) =~= av);
    }
    if let Some(ct) = content_type {
        let value = if header_value_ok(ct.as_str()) { ct } else { "application/octet-stream".to_owned() };
        insert_exec(&mut m, "content-type".to_owned(), value);
    }
    m
}


/// The `(name, value)` pairs of the parameters at `loc` that were given a
/// value, in declaration order (a name may repeat).
pub open spec fn located_pairs(params: Seq<crate::ir::ParamInfo>, values: Seq<Option<String>>, loc: crate::ir::ParameterLocation) -> PairSeq
    decreases params.len(),
{
    if params.len() == 0 {
        seq![]
    } else {
        let n = params.len() - 1;
        let rest = located_pairs(params.drop_last(), values.take(n), loc);
        match values[n] {
            Some(v) => if params[n].location == loc {
                rest.push((params[n].name@, v@))
            } else {
                rest
            },
            None => rest,
        }
    }
}

/// The pairs of the parameters at `loc` that were given a value (see
/// `located_pairs`); `values[i]` is what was given for `params[i]`.
pub fn located_params(params: &Vec<crate::ir::ParamInfo>, values: &Vec<Option<String>>, loc: crate::ir::ParameterLocation) -> (r: Vec<(String, String)>)
    requires
        values@.len() == params@.len(),
    ensures
        order::pair_views(r@) == located_pairs(params@, values@, loc),
{
    let mut out: Vec<(String, String)> = Vec::new();
    let mut i: usize = 0;
    while i < params.len()
        invariant
            i <= params.len(),
            values@.len() == params@.len(),
            order::pair_views(out@) == located_pairs(params@.take(i as int), values@.take(i as int), loc),
        decreases params.len() - i,
    {
        proof {
            let ps = params@.take(i + 1);
            assert(ps.drop_last() =~= params@.take(i as int));
            assert(values@.take(i + 1).take(i as int) =~= values@.take(i as int));
            assert(ps[i as int] == params@[i as int]);
            assert(values@.take(i + 1)[i as int] == values@[i as int]);
        }
        if let Some(v) = &values[i] {
            if params[i].location == loc {
                let ghost before = out@;
                out.push((params[i].name.clone(), v.clone()));
                proof {
                    assert(order::pair_views(out@) =~= order::pair_views(before).push((params@[i as int].name@, v@)));
                }
            }
        }
        i = i + 1;
    }
    proof {
        assert(params@.take(params@.len() as int) =~= params@);
        assert(values@.take(values@.len() as int) =~= values@);
    }
    out
}


/// The request's header map (names in lowercase, in name order) after the
/// caller's headers are laid over it in turn, each under its ASCII
/// lowercase name.
pub open spec fn overlay_of(h: PairSeq, caller: PairSeq) -> PairSeq
    decreases caller.len(),
{
    if caller.len() == 0 {
        h
    } else {
        crate::strmap::put(overlay_of(h, caller.drop_last()), text::lower(caller.last().0), caller.last().1)
    }
}

/// Lays the caller's headers over the request's header map (see
/// `overlay_of`): they go last, after the auth headers, so they win.
pub fn overlay_caller_headers(h: &mut Vec<(String, String)>, caller: &Vec<(String, String)>)
    requires
        crate::strmap::keys_sorted(order::pair_views(old(h)@)),
    ensures
        order::pair_views(final(h)@) == overlay_of(order::pair_views(old(h)@), order::pair_views(caller@)),
        crate::strmap::keys_sorted(order::pair_views(final(h)@)),
{
    let ghost start = order::pair_views(h@);
    let ghost cv = order::pair_views(caller@);
    let mut i: usize = 0;
    proof {
        assert(cv.subrange(0, 0) =~= Seq::<(Seq<char>, Seq<char>)>::empty());
    }
    while i < caller.len()
        invariant
            i <= caller.len(),
            cv == order::pair_views(caller@),
            order::pair_views(h@) == overlay_of(start, cv.subrange(0, i as int)),
            crate::strmap::keys_sorted(order::pair_views(h@)),
        decreases caller.len() - i,
    {
        proof {
            assert(cv.subrange(0, i + 1).drop_last() =~= cv.subrange(0, i as int));
            assert(cv.subrange(0, i + 1).last() == cv[i as int]);
        }
        let lowered = text::lower_vec(&text::chars_of(caller[i].0.as_str()));
        let name = text::string_of(&lowered);
        crate::strmap::map_insert(h, name, caller[i].1.clone());
        i = i + 1;
    }
    proof {
        assert(cv.subrange(0, caller@.len() as int) =~= cv);
    }
}

/// Keys stay sorted as the caller's headers are laid over.
proof fn lemma_overlay_sorted(h: PairSeq, caller: PairSeq)
    requires
        crate::strmap::keys_sorted(h),
    ensures
        crate::strmap::keys_sorted(overlay_of(h, caller)),
    decreases caller.len(),
{
    if caller.len() > 0 {
        lemma_overlay_sorted(h, caller.drop_last());
        crate::strmap::lemma_put(overlay_of(h, caller.drop_last()), text::lower(caller.last().0), caller.last().1);
    }
}

/// A caller's header wins: after the overlay, the (lowercased) name of the
/// last caller header holds that header's value, whatever the request's
/// headers (the auth headers among them) held before.
pub proof fn law_caller_header_wins(h: PairSeq, caller: PairSeq)
    requires
        crate::strmap::keys_sorted(h),
        caller.len() > 0,
    ensures
        crate::strmap::lookup(overlay_of(h, caller), text::lower(caller.last().0)) == Some(caller.last().1),
{
    lemma_overlay_sorted(h, caller.drop_last());
    crate::strmap::lemma_put(overlay_of(h, caller.drop_last()), text::lower(caller.last().0), caller.last().1);
}

} // verus!
