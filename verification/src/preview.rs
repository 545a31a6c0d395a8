//! The framed request preview (`--spall-preview`): method and URL, the
//! headers with secrets hidden, and the start of the body.

use vstd::prelude::*;
use crate::history::sensitive_name;
use crate::order::{self, PairSeq};
use crate::text;

verus! {

/// The number of bytes `c` takes in UTF-8.
pub open spec fn utf8_width(c: char) -> nat {
    let n = c as u32;
    if n < 0x80 {
        1
    } else if n < 0x800 {
        2
    } else if n < 0x10000 {
        3
    } else {
        4
    }
}

/// The number of bytes `s` takes in UTF-8.
pub open spec fn byte_len(s: Seq<char>) -> nat
    decreases s.len(),
{
    if s.len() == 0 {
        0
    } else {
        byte_len(s.drop_last()) + utf8_width(s.last())
    }
}

/// How many bytes of body text the preview shows.
pub open spec fn preview_limit() -> nat {
    512
}

/// `l` without one trailing carriage return.
pub open spec fn strip_cr(l: Seq<char>) -> Seq<char> {
    if l.len() > 0 && l.last() == '\r' {
        l.drop_last()
    } else {
        l
    }
}

/// `str::lines`: the pieces between line feeds, each without the carriage
/// return before its line feed; the last piece only when it is not empty
/// (and then as it is).
pub open spec fn text_lines(s: Seq<char>) -> Seq<Seq<char>> {
    let p = text::split(s, '\n');
    let firsts = p.take(p.len() - 1).map_values(|l: Seq<char>| strip_cr(l));
    if p[p.len() - 1].len() == 0 {
        firsts
    } else {
        firsts.push(p[p.len() - 1])
    }
}

/// A header value as shown: hidden for a sensitive name, `?` unless it is
/// all visible ASCII (tab allowed).
pub open spec fn shown_value(name: Seq<char>, value: Seq<char>) -> Seq<char> {
    if sensitive_name(name) {
        "[REDACTED]"@
    } else if forall|i: int| 0 <= i < value.len() ==> (32 <= #[trigger] (value[i] as u32) < 127 || value[i] == '\t') {
        value
    } else {
        "?"@
    }
}

/// The body lines of the preview: its size, then the lines of its text cut
/// to the first `preview_limit()` bytes (`cut` characters), then a note
/// when it was cut.
pub open spec fn body_lines(text: Seq<char>, nbytes: nat, cut: nat) -> Seq<Seq<char>> {
    let long = byte_len(text) > preview_limit();
    let shown = if long { text.take(cut as int) } else { text };
    seq!["\u{2502} Body ("@ + text::dec(nbytes) + " bytes):"@]
        + text_lines(shown).map_values(|l: Seq<char>| "\u{2502}   "@ + l)
        + if long { seq!["\u{2502}   ... (truncated)"@] } else { Seq::<Seq<char>>::empty() }
}

/// The preview: a frame around the method and URL, each header with its
/// shown value, and the body lines when there is a body (its text, its
/// size in bytes and where the text is cut).
pub open spec fn preview_lines_of(method: Seq<char>, url: Seq<char>, headers: PairSeq, body: Option<(Seq<char>, nat, nat)>) -> Seq<Seq<char>> {
    seq!["\u{250c}\u{2500} Request Preview"@, "\u{2502} "@ + method + " "@ + url]
        + headers.map_values(|h: (Seq<char>, Seq<char>)| "\u{2502} "@ + h.0 + ": "@ + shown_value(h.0, h.1))
        + match body {
            Some((t, n, cut)) => body_lines(t, n, cut),
            None => Seq::<Seq<char>>::empty(),
        }
        + seq!["\u{2514}\u{2500} End Preview"@]
}

/// A body's text and size as plain values.
pub open spec fn body_view(body: Option<(&str, usize)>) -> Option<(Seq<char>, nat)> {
    match body {
        Some((t, n)) => Some((t@, n as nat)),
        None => None,
    }
}

/// Whether `lines` are the preview of a request, with the body text (if
/// any) cut after `cut` characters when it is longer than the limit, which
/// must be its first `preview_limit()` bytes.
pub open spec fn preview_is(lines: Seq<Seq<char>>, method: Seq<char>, url: Seq<char>, headers: PairSeq, body: Option<(Seq<char>, nat)>, cut: nat) -> bool {
    &&& lines == preview_lines_of(method, url, headers, match body {
        Some((t, n)) => Some((t, n, cut)),
        None => None,
    })
    &&& match body {
        Some((t, _)) => byte_len(t) > preview_limit() ==> cut <= t.len() && byte_len(t.take(cut as int)) == preview_limit(),
        None => true,
    }
}

/// The UTF-8 size of `v`, and the number of its characters that make up
/// its first `preview_limit()` bytes when it is longer and such a prefix
/// exists (0 otherwise).
fn measure(v: &Vec<char>) -> (r: (u128, usize))
    ensures
        r.0 == byte_len(v@),
        byte_len(v@) > preview_limit() && (exists|k: int| 0 <= k <= v@.len() && byte_len(#[trigger] v@.take(k)) == preview_limit())
            ==> r.1 <= v@.len() && byte_len(v@.take(r.1 as int)) == preview_limit(),
        (byte_len(v@) > preview_limit() && !(exists|k: int| 0 <= k <= v@.len() && byte_len(#[trigger] v@.take(k)) == preview_limit()))
            ==> r.1 == 0,
{
    let mut total: u128 = 0;
    let mut cut: usize = 0;
    let mut found = false;
    let mut i: usize = 0;
    while i < v.len()
        invariant
            i <= v.len(),
            total == byte_len(v@.take(i as int)),
            total <= 4 * i,
            found ==> cut <= i && byte_len(v@.take(cut as int)) == preview_limit(),
            !found ==> cut == 0 && forall|k: int| 0 <= k <= i ==> byte_len(#[trigger] v@.take(k)) != preview_limit(),
        decreases v.len() - i,
    {
        proof {
            assert(v@.take(i + 1).drop_last() =~= v@.take(i as int));
            assert(v@.take(i + 1).last() == v@[i as int]);
        }
        let n = v[i] as u32;
        let w: u128 = if n < 0x80 { 1 } else if n < 0x800 { 2 } else if n < 0x10000 { 3 } else { 4 };
        total = total + w;
        i = i + 1;
        if !found && total == 512 {
            found = true;
            cut = i;
        }
    }
    proof {
        assert(v@.take(v@.len() as int) =~= v@);
        if !found && byte_len(v@) > preview_limit() {
            assert forall|k: int| 0 <= k <= v@.len() implies byte_len(#[trigger] v@.take(k)) != preview_limit() by {}
        }
    }
    (total, cut)
}

/// Appends `line`.
fn push_s(out: &mut Vec<String>, line: String)
    ensures
        text::views(final(out)@) == text::views(old(out)@).push(line@),
{
    out.push(line);
    proof {
        assert(text::views(final(out)@) =~= text::views(old(out)@).push(line@));
    }
}

/// Three strings joined.
fn cat3(a: &str, b: &str, c: &str) -> (r: String)
    ensures
        r@ == a@ + b@ + c@,
{
    let mut m = a.to_owned();
    m.append(b);
    m.append(c);
    m
}

/// A header value as shown (see `shown_value`).
fn shown_value_exec(name: &str, value: &str) -> (r: String)
    ensures
        r@ == shown_value(name@, value@),
{
    if crate::history::is_sensitive_header(name) {
        return "[REDACTED]".to_owned();
    }
    let v = text::chars_of(value);
    let mut i: usize = 0;
    while i < v.len()
        invariant
            i <= v.len(),
            v@ == value@,
            !sensitive_name(name@),
            forall|j: int| 0 <= j < i ==> (32 <= #[trigger] (v@[j] as u32) < 127 || v@[j] == '\t'),
        decreases v.len() - i,
    {
        let n = v[i] as u32;
        if !((32 <= n && n < 127) || v[i] == '\t') {
            proof {
                assert(v@[i as int] == value@[i as int]);
                assert(!(32 <= (value@[i as int] as u32) < 127 || value@[i as int] == '\t'));
                assert(!(forall|j: int| 0 <= j < value@.len() ==> (32 <= #[trigger] (value@[j] as u32) < 127 || value@[j] == '\t')));
                assert(!sensitive_name(name@));
            }
            return "?".to_owned();
        }
        i = i + 1;
    }
    value.to_owned()
}

/// Appends the preview lines of a body text already cut.
fn push_text_lines(out: &mut Vec<String>, shown: &Vec<char>)
    ensures
        text::views(final(out)@) == text::views(old(out)@) + text_lines(shown@).map_values(|l: Seq<char>| "\u{2502}   "@ + l),
{
    let pieces = text::split_exec(shown, '\n');
    let ghost p = text::split(shown@, '\n');
    proof {
        reveal_with_fuel(text::split, 1);
        assert(p.len() >= 1);
    }
    let ghost start = text::views(out@);
    let last = pieces.len() - 1;
    let mut j: usize = 0;
    while j < last
        invariant
            j <= last,
            last == pieces@.len() - 1,
            p.len() == pieces@.len(),
            forall|k: int| 0 <= k < pieces@.len() ==> #[trigger] pieces@[k]@ == p[k],
            text::views(out@) == start + p.take(j as int).map_values(|l: Seq<char>| "\u{2502}   "@ + strip_cr(l)),
        decreases last - j,
    {
        let piece = &pieces[j];
        let n = piece.len();
        let body_end = if n > 0 && piece[n - 1] == '\r' { n - 1 } else { n };
        let line_text = text::string_of_range(piece, 0, body_end);
        proof {
            assert(piece@.subrange(0, body_end as int) == strip_cr(p[j as int]));
        }
        let mut line = "\u{2502}   ".to_owned();
        line.append(line_text.as_str());
        let ghost before = text::views(out@);
        push_s(out, line);
        proof {
            assert(p.take(j + 1).map_values(|l: Seq<char>| "\u{2502}   "@ + strip_cr(l))
                =~= p.take(j as int).map_values(|l: Seq<char>| "\u{2502}   "@ + strip_cr(l)).push("\u{2502}   "@ + strip_cr(p[j as int])));
            assert(line@ =~= "\u{2502}   "@ + strip_cr(p[j as int]));
        }
        j = j + 1;
    }
    proof {
        assert(p.take(p.len() - 1).map_values(|l: Seq<char>| strip_cr(l)).map_values(|l: Seq<char>| "\u{2502}   "@ + l)
            =~= p.take(p.len() - 1).map_values(|l: Seq<char>| "\u{2502}   "@ + strip_cr(l)));
    }
    if pieces[last].len() > 0 {
        let tail = text::string_of(&pieces[last]);
        let mut line = "\u{2502}   ".to_owned();
        line.append(tail.as_str());
        push_s(out, line);
        proof {
            let firsts = p.take(p.len() - 1).map_values(|l: Seq<char>| strip_cr(l));
            assert(firsts.push(p[p.len() - 1]).map_values(|l: Seq<char>| "\u{2502}   "@ + l)
                =~= firsts.map_values(|l: Seq<char>| "\u{2502}   "@ + l).push("\u{2502}   "@ + p[p.len() - 1]));
            assert(line@ =~= "\u{2502}   "@ + p[p.len() - 1]);
        }
    }
}

/// The preview lines (see `preview_lines_of`); `body` is the body's text,
/// read as UTF-8 with replacements, and its size in bytes. A text longer
/// than the limit must have a character boundary at the limit.
pub fn preview_lines(method: &str, url: &str, headers: &Vec<(String, String)>, body: Option<(&str, usize)>) -> (r: Vec<String>)
    requires
        match body {
            Some((t, _)) => byte_len(t@) > preview_limit()
                ==> exists|k: int| 0 <= k <= t@.len() && byte_len(#[trigger] t@.take(k)) == preview_limit(),
            None => true,
        },
    ensures
        exists|cut: nat| #[trigger] preview_is(text::views(r@), method@, url@, order::pair_views(headers@), body_view(body), cut),
{
    let mut out: Vec<String> = Vec::new();
    push_s(&mut out, "\u{250c}\u{2500} Request Preview".to_owned());
    let mut first = cat3("\u{2502} ", method, " ");
    first.append(url);
    push_s(&mut out, first);
    let ghost hv = order::pair_views(headers@);
    let ghost head = text::views(out@);
    let mut i: usize = 0;
    while i < headers.len()
        invariant
            i <= headers.len(),
            hv == order::pair_views(headers@),
            text::views(out@) == head + hv.take(i as int).map_values(
                |h: (Seq<char>, Seq<char>)| "\u{2502} "@ + h.0 + ": "@ + shown_value(h.0, h.1)),
        decreases headers.len() - i,
    {
        let shown = shown_value_exec(headers[i].0.as_str(), headers[i].1.as_str());
        let mut line = cat3("\u{2502} ", headers[i].0.as_str(), ": ");
        line.append(shown.as_str());
        push_s(&mut out, line);
        proof {
            assert(hv.take(i + 1).map_values(|h: (Seq<char>, Seq<char>)| "\u{2502} "@ + h.0 + ": "@ + shown_value(h.0, h.1))
                =~= hv.take(i as int).map_values(|h: (Seq<char>, Seq<char>)| "\u{2502} "@ + h.0 + ": "@ + shown_value(h.0, h.1))
                    .push("\u{2502} "@ + hv[i as int].0 + ": "@ + shown_value(hv[i as int].0, hv[i as int].1)));
        }
        i = i + 1;
    }
    proof {
        assert(hv.take(hv.len() as int) =~= hv);
    }
    let ghost mid = text::views(out@);
    let mut cut_used: usize = 0;
    if let Some((t, n)) = body {
        let v = text::chars_of(t);
        let (total, cut) = measure(&v);
        cut_used = cut;
        let mut size = "\u{2502} Body (".to_owned();
        text::push_dec(&mut size, n as u128);
        size.append(" bytes):");
        push_s(&mut out, size);
        let long = total > 512;
        let shown: Vec<char> = if long { text::v_range(&v, 0, cut) } else { v };
        proof {
            if long {
                assert(shown@ =~= t@.take(cut as int));
            }
        }
        let ghost before_lines = text::views(out@);
        push_text_lines(&mut out, &shown);
        if long {
            push_s(&mut out, "\u{2502}   ... (truncated)".to_owned());
        }
        proof {
            let bl = body_lines(t@, n as nat, cut as nat);
            assert(text::views(out@) =~= mid + bl);
        }
    }
    push_s(&mut out, "\u{2514}\u{2500} End Preview".to_owned());
    proof {
        let b = match body {
            Some((t, n)) => Some((t@, n as nat, cut_used as nat)),
            None => None,
        };
        assert(text::views(out@) =~= preview_lines_of(method@, url@, hv, b));
        assert(preview_is(text::views(out@), method@, url@, hv, body_view(body), cut_used as nat));
    }
    out
}

/// Whether a body text can be cut at the limit: it is not longer, or a
/// character boundary falls there.
pub open spec fn cuttable(t: Seq<char>) -> bool {
    byte_len(t) <= preview_limit() || exists|k: int| 0 <= k <= t.len() && byte_len(#[trigger] t.take(k)) == preview_limit()
}

/// The preview of a request: `body` is read as UTF-8 with replacements.
/// `None` when the body's text is longer than the limit and a character
/// straddles the limit, where the preview cannot be cut.
pub fn request_preview(method: &str, url: &str, headers: &Vec<(String, String)>, body: Option<&[u8]>) -> (r: Option<Vec<String>>)
    ensures
        body is None ==> r is Some && text::views(r->0@) == preview_lines_of(method@, url@, order::pair_views(headers@), None),
        match body {
            Some(b) => cuttable(crate::discover::utf8_lossy_of(b@)) <==> r is Some,
            None => true,
        },
        match body {
            Some(b) => r is Some ==> exists|cut: nat| #[trigger] preview_is(text::views(r->0@), method@, url@,
                order::pair_views(headers@), Some((crate::discover::utf8_lossy_of(b@), b@.len() as nat)), cut),
            None => true,
        },
{
    match body {
        None => {
            let none: Option<(&str, usize)> = None;
            let lines = preview_lines(method, url, headers, none);
            proof {
                let cut = choose|cut: nat| #[trigger] preview_is(text::views(lines@), method@, url@, order::pair_views(headers@), body_view(none), cut);
                assert(preview_is(text::views(lines@), method@, url@, order::pair_views(headers@), body_view(none), cut));
                assert(text::views(lines@) == preview_lines_of(method@, url@, order::pair_views(headers@), None));
            }
            Some(lines)
        },
        Some(b) => {
            let t = crate::discover::utf8_lossy(b);
            let v = text::chars_of(t.as_str());
            let (total, cut) = measure(&v);
            if total > 512 && cut == 0 {
                return None;
            }
            let arg = Some((t.as_str(), b.len()));
            let lines = preview_lines(method, url, headers, arg);
            let r = Some(lines);
            proof {
                let bv = body_view(arg);
                assert(bv == Some((crate::discover::utf8_lossy_of(b@), b@.len() as nat)));
                let c = choose|c: nat| #[trigger] preview_is(text::views(r->0@), method@, url@, order::pair_views(headers@), bv, c);
                assert(preview_is(text::views(r->0@), method@, url@, order::pair_views(headers@),
                    Some((crate::discover::utf8_lossy_of(b@), b@.len() as nat)), c));
            }
            r
        },
    }
}

} // verus!
