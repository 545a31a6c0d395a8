//! Chain expressions: `op2 --id $.id --name data.name` names a target
//! operation and, for each of its parameters, a JMESPath expression that
//! picks the value out of the previous response.

use vstd::prelude::*;
use crate::text;
use crate::json::{self, Json};
use crate::ir::{OperationInfo, ParamInfo, ParameterLocation};
use crate::error::SpallCliError;

verus! {

/// Parsed chain expression.
pub struct ChainExpr {
    pub target_op_id: String,
    /// `(param_id, jmespath_expression)` pairs.
    pub bindings: Vec<(String, String)>,
}

/// The whitespace-separated words of `s`, as `str::split_whitespace` gives them.
pub open spec fn words(s: Seq<char>) -> Seq<Seq<char>>
    decreases s.len(),
{
    if s.len() == 0 {
        seq![]
    } else if text::is_ws(s.last()) {
        words(s.drop_last())
    } else {
        let w = words(s.drop_last());
        if s.len() >= 2 && !text::is_ws(s[s.len() - 2]) && w.len() > 0 {
            w.drop_last().push(w.last().push(s.last()))
        } else {
            w.push(seq![s.last()])
        }
    }
}

/// `t` without all its leading `--` pairs.
pub open spec fn strip_dashes(t: Seq<char>) -> Seq<char>
    decreases t.len(),
{
    if t.len() >= 2 && t[0] == '-' && t[1] == '-' {
        strip_dashes(t.subrange(2, t.len() as int))
    } else {
        t
    }
}

/// The bindings read from the words after the target: a `--name` word takes
/// the next word as its expression; other words are skipped. `Err(name)`
/// when a `--name` word is last.
pub open spec fn bindings_of(ws: Seq<Seq<char>>) -> Result<Seq<(Seq<char>, Seq<char>)>, Seq<char>>
    decreases ws.len(),
{
    if ws.len() == 0 {
        Ok(seq![])
    } else if text::starts_with(ws[0], "--"@) {
        if ws.len() == 1 {
            Err(strip_dashes(ws[0]))
        } else {
            match bindings_of(ws.subrange(2, ws.len() as int)) {
                Ok(b) => Ok(seq![(strip_dashes(ws[0]), ws[1])] + b),
                Err(e) => Err(e),
            }
        }
    } else {
        bindings_of(ws.drop_first())
    }
}

/// The error for an empty chain expression.
pub open spec fn no_target_msg() -> Seq<char> {
    "chain expression requires target operation"@
}

/// The error for a parameter with no expression.
pub open spec fn needs_expr_msg(param: Seq<char>) -> Seq<char> {
    "chain param '"@ + param + "' needs a jmespath expression"@
}

/// What a chain expression parses to: the target and the bindings, or the
/// message of the usage error.
pub open spec fn chain_parse(expr: Seq<char>) -> Result<(Seq<char>, Seq<(Seq<char>, Seq<char>)>), Seq<char>> {
    let ws = words(expr);
    if ws.len() == 0 {
        Err(no_target_msg())
    } else {
        match bindings_of(ws.drop_first()) {
            Ok(b) => Ok((ws[0], b)),
            Err(p) => Err(needs_expr_msg(p)),
        }
    }
}

/// No character of `w` is whitespace.
pub open spec fn no_ws(w: Seq<char>) -> bool {
    forall|i: int| 0 <= i < w.len() ==> !text::is_ws(#[trigger] w[i])
}

/// The text `op --k1 v1 --k2 v2 ...` of a target and its bindings.
pub open spec fn chain_text(op: Seq<char>, bs: Seq<(Seq<char>, Seq<char>)>) -> Seq<char>
    decreases bs.len(),
{
    if bs.len() == 0 {
        op
    } else {
        chain_text(op, bs.drop_last()) + " --"@ + bs.last().0 + " "@ + bs.last().1
    }
}

/// The words after the target in `chain_text`: `--k1`, `v1`, `--k2`, `v2`, ...
pub open spec fn binding_words(bs: Seq<(Seq<char>, Seq<char>)>) -> Seq<Seq<char>>
    decreases bs.len(),
{
    if bs.len() == 0 {
        seq![]
    } else {
        binding_words(bs.drop_last()) + seq!["--"@ + bs.last().0, bs.last().1]
    }
}

/// A space after the text adds no word.
proof fn lemma_words_space(s: Seq<char>)
    ensures
        words(s + " "@) == words(s),
{
    reveal_strlit(" ");
    assert((s + " "@).drop_last() =~= s);
}

/// A word appended after whitespace (or at the start) is one more word.
proof fn lemma_words_push(s: Seq<char>, w: Seq<char>)
    requires
        w.len() > 0,
        no_ws(w),
        s.len() == 0 || text::is_ws(s.last()),
    ensures
        words(s + w) == words(s).push(w),
    decreases w.len(),
{
    let t = s + w;
    assert(!text::is_ws(w[w.len() - 1]));
    assert(t.last() == w.last());
    if w.len() == 1 {
        assert(t.drop_last() =~= s);
        if s.len() > 0 {
            assert(t[t.len() - 2] == s.last());
        }
        assert(seq![t.last()] =~= w);
    } else {
        let w0 = w.drop_last();
        assert(no_ws(w0)) by {
            assert forall|i: int| 0 <= i < w0.len() implies !text::is_ws(#[trigger] w0[i]) by {
                assert(w0[i] == w[i]);
            }
        }
        lemma_words_push(s, w0);
        assert(t.drop_last() =~= s + w0);
        assert(t[t.len() - 2] == w[w.len() - 2]);
        assert(!text::is_ws(w[w.len() - 2]));
        assert(words(s + w0).last() == w0);
        assert(w0.push(t.last()) =~= w);
        assert(words(s + w0).drop_last() =~= words(s));
    }
}

/// Whether every binding has a key and an expression without whitespace,
/// and no key starts with `-`.
pub open spec fn plain_bindings(bs: Seq<(Seq<char>, Seq<char>)>) -> bool {
    forall|i: int| 0 <= i < bs.len() ==> {
        let (k, v) = #[trigger] bs[i];
        k.len() > 0 && no_ws(k) && k[0] != '-' && v.len() > 0 && no_ws(v)
    }
}

/// The words of `chain_text` are the target, then the binding words.
proof fn lemma_chain_text_words(op: Seq<char>, bs: Seq<(Seq<char>, Seq<char>)>)
    requires
        op.len() > 0,
        no_ws(op),
        plain_bindings(bs),
    ensures
        words(chain_text(op, bs)) == seq![op] + binding_words(bs),
        chain_text(op, bs).len() > 0 && !text::is_ws(chain_text(op, bs).last()),
    decreases bs.len(),
{
    reveal_strlit(" ");
    reveal_strlit("--");
    reveal_strlit(" --");
    if bs.len() == 0 {
        lemma_words_push(seq![], op);
        assert(seq![] + op =~= op);
        assert(op.last() == op[op.len() - 1]);
    } else {
        let pre = bs.drop_last();
        assert(plain_bindings(pre)) by {
            assert forall|i: int| 0 <= i < pre.len() implies {
                let (k, v) = #[trigger] pre[i];
                k.len() > 0 && no_ws(k) && k[0] != '-' && v.len() > 0 && no_ws(v)
            } by {
                assert(pre[i] == bs[i]);
            }
        }
        lemma_chain_text_words(op, pre);
        let (k, v) = bs.last();
        assert(bs[bs.len() - 1] == bs.last());
        let p = chain_text(op, pre);
        let dk = "--"@ + k;
        assert(no_ws(dk)) by {
            assert forall|i: int| 0 <= i < dk.len() implies !text::is_ws(#[trigger] dk[i]) by {
                if i >= 2 {
                    assert(dk[i] == k[i - 2]);
                }
            }
        }
        lemma_words_space(p);
        lemma_words_push(p + " "@, dk);
        lemma_words_space(p + " "@ + dk);
        assert((p + " "@ + dk + " "@).last() == ' ');
        lemma_words_push(p + " "@ + dk + " "@, v);
        assert(chain_text(op, bs) =~= p + " "@ + dk + " "@ + v);
        assert(p + " --"@ + k =~= p + " "@ + dk);
        assert(v.last() == v[v.len() - 1]);
        assert(chain_text(op, bs).last() == v.last());
        assert(seq![op] + binding_words(bs) =~= (seq![op] + binding_words(pre)).push(dk).push(v));
    }
}

/// The binding words of `bs`, taken from the front.
proof fn lemma_binding_words_front(bs: Seq<(Seq<char>, Seq<char>)>)
    requires
        bs.len() > 0,
    ensures
        binding_words(bs) == seq!["--"@ + bs[0].0, bs[0].1] + binding_words(bs.drop_first()),
    decreases bs.len(),
{
    if bs.len() == 1 {
        assert(bs.drop_last() =~= seq![]);
        assert(bs.drop_first() =~= seq![]);
        assert(binding_words(bs.drop_last()) =~= seq![]);
        assert(binding_words(bs.drop_first()) =~= seq![]);
        assert(bs.last() == bs[0]);
        assert(binding_words(bs) =~= seq!["--"@ + bs[0].0, bs[0].1] + binding_words(bs.drop_first()));
    } else {
        let pre = bs.drop_last();
        lemma_binding_words_front(pre);
        assert(pre.drop_first() =~= bs.drop_first().drop_last());
        assert(bs.drop_first().last() == bs.last());
        assert(pre[0] == bs[0]);
        assert(binding_words(bs) =~= seq!["--"@ + bs[0].0, bs[0].1] + binding_words(bs.drop_first()));
    }
}

/// The binding words read back as the bindings.
proof fn lemma_bindings_of_words(bs: Seq<(Seq<char>, Seq<char>)>)
    requires
        plain_bindings(bs),
    ensures
        bindings_of(binding_words(bs)) == Ok::<Seq<(Seq<char>, Seq<char>)>, Seq<char>>(bs),
    decreases bs.len(),
{
    reveal_strlit("--");
    if bs.len() == 0 {
        assert(bs =~= seq![]);
    } else {
        let rest = bs.drop_first();
        assert(plain_bindings(rest)) by {
            assert forall|i: int| 0 <= i < rest.len() implies {
                let (k, v) = #[trigger] rest[i];
                k.len() > 0 && no_ws(k) && k[0] != '-' && v.len() > 0 && no_ws(v)
            } by {
                assert(rest[i] == bs[i + 1]);
            }
        }
        lemma_bindings_of_words(rest);
        lemma_binding_words_front(bs);
        let (k, v) = bs[0];
        let dk = "--"@ + k;
        let ws = binding_words(bs);
        assert(ws[0] == dk && ws[1] == v);
        assert(ws.subrange(2, ws.len() as int) =~= binding_words(rest));
        assert(text::starts_with(dk, "--"@)) by {
            assert(dk.subrange(0, 2) =~= "--"@);
        }
        assert(dk.subrange(2, dk.len() as int) =~= k);
        assert(strip_dashes(k) == k);
        assert(strip_dashes(dk) == k);
        assert(ws.len() >= 2);
        assert(bindings_of(ws) == Ok::<Seq<(Seq<char>, Seq<char>)>, Seq<char>>(seq![(k, v)] + rest));
        assert(seq![(k, v)] + rest =~= bs);
    }
}

/// Parsing `op --k1 v1 --k2 v2 ...` gives back the target and the bindings
/// in order, when the target, keys and expressions hold no whitespace, none
/// is empty and no key starts with `-`.
pub proof fn law_chain_parse_round_trip(op: Seq<char>, bs: Seq<(Seq<char>, Seq<char>)>)
    requires
        op.len() > 0,
        no_ws(op),
        plain_bindings(bs),
    ensures
        chain_parse(chain_text(op, bs)) == Ok::<(Seq<char>, Seq<(Seq<char>, Seq<char>)>), Seq<char>>((op, bs)),
{
    lemma_chain_text_words(op, bs);
    lemma_bindings_of_words(bs);
    let ws = words(chain_text(op, bs));
    assert(ws.drop_first() =~= binding_words(bs));
}

/// The views of the bindings.
pub open spec fn binding_views(b: Seq<(String, String)>) -> Seq<(Seq<char>, Seq<char>)> {
    b.map_values(|p: (String, String)| (p.0@, p.1@))
}

/// The words of `s`, as character vectors.
pub(crate) fn split_words(s: &str) -> (r: Vec<Vec<char>>)
    ensures
        r@.len() == words(s@).len(),
        forall|i: int| 0 <= i < r@.len() ==> #[trigger] r@[i]@ == words(s@)[i],
{
    let v = text::chars_of(s);
    let ghost mut wv: Seq<Seq<char>> = seq![];
    let mut out: Vec<Vec<char>> = Vec::new();
    let mut cur: Vec<char> = Vec::new();
    let mut i: usize = 0;
    while i < v.len()
        invariant
            i <= v.len(),
            v@ == s@,
            words(v@.subrange(0, i as int)) == (if cur@.len() > 0 { wv.push(cur@) } else { wv }),
            cur@.len() > 0 <==> (i > 0 && !text::is_ws(v@[i - 1])),
            out@.len() == wv.len(),
            forall|k: int| 0 <= k < out@.len() ==> #[trigger] out@[k]@ == wv[k],
        decreases v.len() - i,
    {
        let c = v[i];
        proof {
            let t = v@.subrange(0, i + 1);
            assert(t.drop_last() =~= v@.subrange(0, i as int));
            assert(t.last() == c);
            if i > 0 {
                assert(t[t.len() - 2] == v@[i - 1]);
            }
        }
        if text::is_ws_exec(c) {
            if cur.len() > 0 {
                proof {
                    wv = wv.push(cur@);
                }
                let w = cur;
                out.push(w);
                cur = Vec::new();
            }
        } else {
            let ghost old_cur = cur@;
            proof {
                assert(wv.push(old_cur).drop_last() =~= wv);
                assert(wv.push(old_cur).last() == old_cur);
            }
            cur.push(c);
            proof {
                if old_cur.len() > 0 {
                    assert(wv.push(old_cur).drop_last().push(wv.push(old_cur).last().push(c)) =~= wv.push(cur@));
                } else {
                    assert(cur@ =~= seq![c]);
                }
            }
        }
        i = i + 1;
    }
    if cur.len() > 0 {
        proof {
            wv = wv.push(cur@);
        }
        out.push(cur);
    }
    proof {
        assert(v@.subrange(0, v@.len() as int) =~= v@);
        assert(wv =~= words(s@));
    }
    out
}

/// Whether `w` begins with `--`.
fn starts_with_dashes(w: &Vec<char>) -> (b: bool)
    ensures
        b == text::starts_with(w@, "--"@),
{
    proof {
        reveal_strlit("--");
    }
    let r = w.len() >= 2 && w[0] == '-' && w[1] == '-';
    proof {
        if r {
            assert(w@.subrange(0, 2) =~= "--"@);
        } else if w@.len() >= 2 {
            assert(w@.subrange(0, 2)[0] != '-' || w@.subrange(0, 2)[1] != '-');
        }
    }
    r
}

/// `w` without its leading `--` pairs.
fn strip_dashes_exec(w: &Vec<char>) -> (r: Vec<char>)
    ensures
        r@ == strip_dashes(w@),
{
    let mut a: usize = 0;
    proof {
        assert(w@.subrange(0, w@.len() as int) =~= w@);
    }
    while a < w.len() && w.len() - a >= 2 && w[a] == '-' && w[a + 1] == '-'
        invariant
            a <= w.len(),
            strip_dashes(w@) == strip_dashes(w@.subrange(a as int, w@.len() as int)),
        decreases w.len() - a,
    {
        proof {
            let t = w@.subrange(a as int, w@.len() as int);
            assert(t[0] == w@[a as int] && t[1] == w@[a + 1]);
            assert(t.subrange(2, t.len() as int) =~= w@.subrange(a + 2, w@.len() as int));
        }
        a = a + 2;
    }
    proof {
        let t = w@.subrange(a as int, w@.len() as int);
        if t.len() >= 2 {
            assert(t[0] == w@[a as int] && t[1] == w@[a + 1]);
        }
        assert(strip_dashes(t) == t);
    }
    text::v_range(w, a, w.len())
}

/// `bindings_of` refuses the same way once a suffix of the words is refused.
proof fn lemma_bindings_step(ws: Seq<Seq<char>>, k: int)
    requires
        0 <= k < ws.len(),
    ensures
        !text::starts_with(ws[k], "--"@) ==> bindings_of(ws.subrange(k, ws.len() as int))
            == bindings_of(ws.subrange(k + 1, ws.len() as int)),
{
    let t = ws.subrange(k, ws.len() as int);
    assert(t.drop_first() =~= ws.subrange(k + 1, ws.len() as int));
}

impl ChainExpr {
    /// Parse a simple expression like `op2 --id $.id --name $.name`.
    pub fn parse(expr: &str) -> (r: Result<ChainExpr, SpallCliError>)
        ensures
            match (r, chain_parse(expr@)) {
                (Ok(c), Ok((t, b))) => c.target_op_id@ == t && binding_views(c.bindings@) == b,
                (Err(SpallCliError::Usage(m)), Err(e)) => m@ == e,
                _ => false,
            },
    {
        let ws = split_words(expr);
        let ghost wv = words(expr@);
        if ws.len() == 0 {
            return Err(SpallCliError::Usage(String::from_str("chain expression requires target operation")));
        }
        let target_op_id = text::string_of(&ws[0]);
        let mut bindings: Vec<(String, String)> = Vec::new();
        let ghost rest = wv.drop_first();
        let mut k: usize = 1;
        proof {
            assert(wv.subrange(1, wv.len() as int) =~= rest);
        }
        while k < ws.len()
            invariant
                1 <= k <= ws.len(),
                ws@.len() == wv.len(),
                wv == words(expr@),
                rest == wv.drop_first(),
                forall|i: int| 0 <= i < ws@.len() ==> #[trigger] ws@[i]@ == wv[i],
                bindings_of(rest) == match bindings_of(wv.subrange(k as int, wv.len() as int)) {
                    Ok(b2) => Ok(binding_views(bindings@) + b2),
                    Err(e) => Err::<Seq<(Seq<char>, Seq<char>)>, Seq<char>>(e),
                },
            decreases ws.len() - k,
        {
            let ghost tail = wv.subrange(k as int, wv.len() as int);
            proof {
                assert(tail[0] == wv[k as int]);
            }
            if starts_with_dashes(&ws[k]) {
                let param_id = strip_dashes_exec(&ws[k]);
                if k + 1 >= ws.len() {
                    proof {
                        assert(tail.len() == 1);
                    }
                    let mut m = String::from_str("chain param '");
                    m.append(text::string_of(&param_id).as_str());
                    m.append("' needs a jmespath expression");
                    return Err(SpallCliError::Usage(m));
                }
                let ghost before = binding_views(bindings@);
                bindings.push((text::string_of(&param_id), text::string_of(&ws[k + 1])));
                proof {
                    assert(tail.subrange(2, tail.len() as int) =~= wv.subrange(k + 2, wv.len() as int));
                    assert(binding_views(bindings@) =~= before + seq![(strip_dashes(wv[k as int]), wv[k + 1])]);
                    match bindings_of(wv.subrange(k + 2, wv.len() as int)) {
                        Ok(b2) => {
                            assert(before + (seq![(strip_dashes(wv[k as int]), wv[k + 1])] + b2) =~= binding_views(bindings@) + b2);
                        }
                        Err(e) => {}
                    }
                }
                k = k + 2;
            } else {
                proof {
                    lemma_bindings_step(wv, k as int);
                }
                k = k + 1;
            }
        }
        proof {
            assert(wv.subrange(k as int, wv.len() as int).len() == 0);
            assert(binding_views(bindings@) + Seq::<(Seq<char>, Seq<char>)>::empty() =~= binding_views(bindings@));
        }
        Ok(ChainExpr { target_op_id, bindings })
    }
}


/// Why a JMESPath evaluation failed, with the library's error text.
pub enum JmesFailure {
    /// The expression does not compile.
    Compile(String),
    /// The search failed.
    Search(String),
}

/// ASCII letters and `_`, which start a JMESPath identifier.
pub open spec fn ident_start(c: char) -> bool {
    ('a' <= c && c <= 'z') || ('A' <= c && c <= 'Z') || c == '_'
}

/// An ASCII decimal digit.
pub open spec fn ascii_digit(c: char) -> bool {
    '0' <= c && c <= '9'
}

/// A character that continues a JMESPath identifier.
pub open spec fn ident_char(c: char) -> bool {
    ident_start(c) || ascii_digit(c)
}

/// A character the JMESPath lexer reads as a token of its own without
/// looking further (`:` aside).
pub open spec fn single_token(c: char) -> bool {
    c == '.' || c == '*' || c == '@' || c == ']' || c == '{' || c == '}' || c == '(' || c == ')'
        || c == ',' || c == '|' || c == '&'
}

/// The whitespace the JMESPath lexer skips.
pub open spec fn lex_ws(c: char) -> bool {
    c == ' ' || c == '\n' || c == '\t' || c == '\r'
}

/// The largest positive slice step accepted. `jmespath` walks a slice with
/// an `i32` index that it advances by the step, which overflows (and then
/// panics) once index plus step passes `i32::MAX`; with a step of at most
/// 2^30 that needs an array of more than 2^30 elements.
pub open spec fn max_slice_step() -> nat {
    1073741824
}

/// Whether a number literal's digits are acceptable: a value that fits in
/// an `i32`, and, for a positive slice step, at most `max_slice_step`.
pub open spec fn number_ok(d: Seq<char>, step: bool) -> bool {
    json::digits_value(d) <= 2147483647 && (step ==> json::digits_value(d) <= max_slice_step())
}

/// The slice state after a `:`: one more colon inside `[ ... ]` (counted up
/// to 3), or still none.
pub open spec fn after_colon(sl: int) -> int {
    if sl < 0 {
        -1
    } else if sl >= 3 {
        3
    } else {
        sl + 1
    }
}

/// Where the JMESPath lexer stands while reading an expression.
pub enum LexMode {
    /// Between tokens.
    Normal,
    /// Inside an identifier.
    Ident,
    /// Inside a number whose digits start at this position; `true` when the
    /// number is a positive slice step.
    Digits(int, bool),
    /// Inside a quoted identifier, raw string or literal closed by this
    /// character.
    Quoted(char),
}

/// Orders the modes for the lexer's measure: leaving a token for `Normal`
/// at the same position counts as progress.
pub open spec fn lex_rank(m: LexMode) -> int {
    match m {
        LexMode::Normal => 0,
        _ => 1,
    }
}

/// Whether every number literal the JMESPath lexer reads from position `i`
/// of `s` on, in mode `m`, is acceptable (`number_ok`), so that neither the
/// lexer nor a slice walk faults: a run of digits after a digit or after
/// `-` and `1`-`9` must be at most 2147483647, `-` must not be followed by a
/// numeric character other than `0`-`9`, and a number right after the
/// second `:` of `[ n : n : n ]` (the step; `sl` counts the colons since
/// `[`, `-1` outside such a bracket) must be at most `max_slice_step`.
/// Reading stops (with an error of the lexer's own, never a fault) at an
/// invalid character, a lone `=`, a `-` not followed by a digit, and an
/// unclosed quote. The text between quotes is passed over whatever it holds.
pub open spec fn lex_fits(s: Seq<char>, i: int, m: LexMode, sl: int) -> bool
    decreases s.len() - i, lex_rank(m),
{
    if i < 0 || i >= s.len() {
        match m {
            LexMode::Digits(st, step) => number_ok(s.subrange(st, s.len() as int), step),
            _ => true,
        }
    } else {
        let c = s[i];
        match m {
            LexMode::Normal => if ident_start(c) {
                lex_fits(s, i + 1, LexMode::Ident, -1)
            } else if ascii_digit(c) {
                lex_fits(s, i + 1, LexMode::Digits(i, sl == 2), sl)
            } else if c == '-' {
                if i + 1 < s.len() && '1' <= s[i + 1] && s[i + 1] <= '9' {
                    lex_fits(s, i + 2, LexMode::Digits(i + 1, false), sl)
                } else {
                    !(i + 1 < s.len() && s[i + 1] != '0' && unicode_numeric(s[i + 1]))
                }
            } else if c == '"' || c == '\'' || c == '`' {
                lex_fits(s, i + 1, LexMode::Quoted(c), -1)
            } else if c == '=' {
                if i + 1 < s.len() && s[i + 1] == '=' {
                    lex_fits(s, i + 2, LexMode::Normal, -1)
                } else {
                    true
                }
            } else if c == '[' {
                if i + 1 < s.len() && s[i + 1] == '?' {
                    lex_fits(s, i + 2, LexMode::Normal, -1)
                } else {
                    lex_fits(s, i + 1, LexMode::Normal, 0)
                }
            } else if c == '>' || c == '<' || c == '!' {
                if i + 1 < s.len() && s[i + 1] == '=' {
                    lex_fits(s, i + 2, LexMode::Normal, -1)
                } else {
                    lex_fits(s, i + 1, LexMode::Normal, -1)
                }
            } else if c == ':' {
                lex_fits(s, i + 1, LexMode::Normal, after_colon(sl))
            } else if lex_ws(c) {
                lex_fits(s, i + 1, LexMode::Normal, sl)
            } else if single_token(c) {
                lex_fits(s, i + 1, LexMode::Normal, -1)
            } else {
                true
            },
            LexMode::Ident => if ident_char(c) {
                lex_fits(s, i + 1, LexMode::Ident, sl)
            } else {
                lex_fits(s, i, LexMode::Normal, sl)
            },
            LexMode::Digits(st, step) => if ascii_digit(c) {
                lex_fits(s, i + 1, LexMode::Digits(st, step), sl)
            } else {
                number_ok(s.subrange(st, i), step) && lex_fits(s, i, LexMode::Normal, sl)
            },
            LexMode::Quoted(w) => if c == w {
                lex_fits(s, i + 1, LexMode::Normal, sl)
            } else if c == '\\' {
                if i + 1 < s.len() {
                    lex_fits(s, i + 2, LexMode::Quoted(w), sl)
                } else {
                    true
                }
            } else {
                lex_fits(s, i + 1, LexMode::Quoted(w), sl)
            },
        }
    }
}

/// Whether the number literals of the JMESPath expression `expr` are all
/// acceptable (see `lex_fits`).
pub open spec fn jmes_numbers_fit(expr: Seq<char>) -> bool {
    lex_fits(expr, 0, LexMode::Normal, -1)
}

/// The message for a number literal that is refused.
pub open spec fn number_range_msg() -> Seq<char> {
    "number literal out of range"@
}

/// Whether `char::is_numeric` holds of a character (Unicode `N*`).
pub uninterp spec fn unicode_numeric(c: char) -> bool;

/// `char::is_numeric`: the answer, named.
#[verifier::external_body]
fn is_numeric(c: char) -> (b: bool)
    ensures
        b == unicode_numeric(c),
{
    c.is_numeric()
}

/// Whether a character is an ASCII digit.
fn ascii_digit_exec(c: char) -> (b: bool)
    ensures
        b == ascii_digit(c),
{
    '0' <= c && c <= '9'
}

/// Whether a character continues an identifier.
fn ident_char_exec(c: char) -> (b: bool)
    ensures
        b == ident_char(c),
{
    ('a' <= c && c <= 'z') || ('A' <= c && c <= 'Z') || c == '_' || ('0' <= c && c <= '9')
}

/// Whether a character is a token of its own (see `single_token`).
fn single_token_exec(c: char) -> (b: bool)
    ensures
        b == single_token(c),
{
    c == '.' || c == '*' || c == '@' || c == ']' || c == '{' || c == '}' || c == '(' || c == ')'
        || c == ',' || c == '|' || c == '&'
}

/// One more digit keeps a value that is already too large too large.
proof fn lemma_digits_grow(d: Seq<char>, c: char)
    requires
        ascii_digit(c),
    ensures
        json::digits_value(d.push(c)) == json::digits_value(d) * 10 + ((c as nat) - 48) as nat,
        json::digits_value(d.push(c)) >= json::digits_value(d),
{
    assert(d.push(c).drop_last() =~= d);
    let v = json::digits_value(d);
    assert(v * 10 >= v) by (nonlinear_arith)
        requires
            v >= 0,
    ;
}

/// Whether every number literal of the JMESPath expression `expr` is
/// acceptable to the `jmespath` crate (see `lex_fits`).
pub fn jmespath_numbers_fit(expr: &str) -> (r: bool)
    ensures
        r == jmes_numbers_fit(expr@),
{
    let v = text::chars_of(expr);
    let n = v.len();
    let mut i: usize = 0;
    let mut sl: i8 = -1;
    while i < n
        invariant
            i <= n,
            n == v.len(),
            v@ == expr@,
            -1 <= sl <= 3,
            jmes_numbers_fit(expr@) == lex_fits(v@, i as int, LexMode::Normal, sl as int),
        decreases n - i,
    {
        let c = v[i];
        if ('a' <= c && c <= 'z') || ('A' <= c && c <= 'Z') || c == '_' {
            let mut j = i + 1;
            while j < n && ident_char_exec(v[j])
                invariant
                    i < j <= n,
                    n == v.len(),
                    v@ == expr@,
                    jmes_numbers_fit(expr@) == lex_fits(v@, j as int, LexMode::Ident, -1),
                decreases n - j,
            {
                j = j + 1;
            }
            i = j;
            sl = -1;
        } else if ascii_digit_exec(c) || (c == '-' && i + 1 < n && '1' <= v[i + 1] && v[i + 1] <= '9') {
            let st: usize = if c == '-' { i + 1 } else { i };
            let step: bool = c != '-' && sl == 2;
            let limit: u64 = if step { 1073741824 } else { 2147483647 };
            let mut acc: u64 = ((v[st] as u32) - 48) as u64;
            let mut big = false;
            let mut j = st + 1;
            proof {
                assert(ascii_digit(v@[st as int]));
                let d = v@.subrange(st as int, j as int);
                assert(d.drop_last() =~= Seq::<char>::empty());
                assert(json::digits_value(Seq::<char>::empty()) == 0);
                assert(d.last() == v@[st as int]);
                assert(json::digits_value(d) == ((v@[st as int] as nat) - 48) as nat);
            }
            while j < n && ascii_digit_exec(v[j])
                invariant
                    st < j <= n,
                    n == v.len(),
                    limit == (if step { 1073741824u64 } else { 2147483647u64 }),
                    big == !number_ok(v@.subrange(st as int, j as int), step),
                    !big ==> acc == json::digits_value(v@.subrange(st as int, j as int)),
                    v@ == expr@,
                    -1 <= sl <= 3,
                    jmes_numbers_fit(expr@) == lex_fits(v@, j as int, LexMode::Digits(st as int, step), sl as int),
                decreases n - j,
            {
                let ghost d = v@.subrange(st as int, j as int);
                proof {
                    assert(v@.subrange(st as int, j + 1) =~= d.push(v@[j as int]));
                    lemma_digits_grow(d, v@[j as int]);
                }
                if !big {
                    acc = acc * 10 + (((v[j] as u32) - 48) as u64);
                    if acc > limit {
                        big = true;
                    }
                }
                j = j + 1;
            }
            if big {
                return false;
            }
            i = j;
        } else if c == '-' {
            return !(i + 1 < n && v[i + 1] != '0' && is_numeric(v[i + 1]));
        } else if c == '"' || c == '\'' || c == '`' {
            let mut j = i + 1;
            while j < n && v[j] != c
                invariant
                    i < j <= n,
                    n == v.len(),
                    v@ == expr@,
                    jmes_numbers_fit(expr@) == lex_fits(v@, j as int, LexMode::Quoted(c), -1),
                decreases n - j,
            {
                if v[j] == '\\' {
                    if j + 1 >= n {
                        assert(lex_fits(v@, j as int, LexMode::Quoted(c), -1));
                        return true;
                    }
                    j = j + 2;
                } else {
                    j = j + 1;
                }
            }
            if j >= n {
                return true;
            }
            i = j + 1;
            sl = -1;
        } else if c == '=' {
            if i + 1 < n && v[i + 1] == '=' {
                i = i + 2;
                sl = -1;
            } else {
                return true;
            }
        } else if c == '[' {
            if i + 1 < n && v[i + 1] == '?' {
                i = i + 2;
                sl = -1;
            } else {
                i = i + 1;
                sl = 0;
            }
        } else if c == '>' || c == '<' || c == '!' {
            if i + 1 < n && v[i + 1] == '=' {
                i = i + 2;
            } else {
                i = i + 1;
            }
            sl = -1;
        } else if c == ':' {
            sl = if sl < 0 { -1 } else if sl >= 3 { 3 } else { sl + 1 };
            i = i + 1;
        } else if c == ' ' || c == '\n' || c == '\t' || c == '\r' {
            i = i + 1;
        } else if single_token_exec(c) {
            i = i + 1;
            sl = -1;
        } else {
            return true;
        }
    }
    true
}

/// The outcome of searching the JSON document `doc_json` with the JMESPath
/// expression `expr`: `(true, text)` for a string result, `(false, json)`
/// for any other result as JSON text; or `(true, message)` for an
/// expression that does not compile and `(false, message)` for a failed
/// search.
pub uninterp spec fn jmespath_outcome(expr: Seq<char>, doc_json: Seq<char>) -> Result<(bool, Seq<char>), (bool, Seq<char>)>;

/// `jmespath::compile(expr)` then `search` on the document parsed by
/// `jmespath::Variable::from_json`; a `Variable::String` result is returned
/// as its text, any other result as `Variable`'s `Display` (JSON text).
/// The contract only ties the outcome to `jmespath_outcome` of the two
/// arguments: the JMESPath semantics themselves are not stated. The crate's
/// lexer panics on a number literal that does not fit in an `i32`, and its
/// slice walk overflows on a large step, so the expression must pass
/// `jmes_numbers_fit`. Left unsaid: an array of more than 2^30 elements met
/// during the search could still overflow that walk with an accepted step.
#[verifier::external_body]
pub(crate) fn jmespath_search(expr: &str, doc_json: &str) -> (r: Result<(bool, String), JmesFailure>)
    requires
        jmes_numbers_fit(expr@),
    ensures
        match (r, jmespath_outcome(expr@, doc_json@)) {
            (Ok((b, s)), Ok((c, t))) => b == c && s@ == t,
            (Err(JmesFailure::Compile(m)), Err((true, t))) => m@ == t,
            (Err(JmesFailure::Search(m)), Err((false, t))) => m@ == t,
            _ => false,
        },
{
    let compiled = match jmespath::compile(expr) {
        Ok(c) => c,
        Err(e) => return Err(JmesFailure::Compile(e.to_string())),
    };
    let data = match jmespath::Variable::from_json(doc_json) {
        Ok(v) => v,
        Err(e) => return Err(JmesFailure::Search(e)),
    };
    match compiled.search(data) {
        Ok(v) => Ok(match v.as_ref() {
            jmespath::Variable::String(s) => (true, s.clone()),
            other => (false, other.to_string()),
        }),
        Err(e) => Err(JmesFailure::Search(e.to_string())),
    }
}

/// The value an expression picks out of a response, or the usage-error
/// message; an expression with a refused number literal (`jmes_numbers_fit`) is refused as
/// a compile error.
pub open spec fn eval_of(expr: Seq<char>, doc: json::JsonV) -> Result<Seq<char>, Seq<char>> {
    if !jmes_numbers_fit(expr) {
        Err("chain jmespath compile error for '"@ + expr + "': "@ + number_range_msg())
    } else {
        match jmespath_outcome(expr, json::json_text(doc)) {
            Ok((_, v)) => Ok(v),
            Err((true, m)) => Err("chain jmespath compile error for '"@ + expr + "': "@ + m),
            Err((false, m)) => Err("chain jmespath search error for '"@ + expr + "': "@ + m),
        }
    }
}

/// Compile and search a single JMESPath expression, stringifying the result.
pub fn eval(response_json: &Json, expr_str: &str) -> (r: Result<String, SpallCliError>)
    ensures
        match (r, eval_of(expr_str@, response_json@)) {
            (Ok(v), Ok(w)) => v@ == w,
            (Err(SpallCliError::Usage(m)), Err(w)) => m@ == w,
            _ => false,
        },
{
    if !jmespath_numbers_fit(expr_str) {
        let mut msg = String::from_str("chain jmespath compile error for '");
        msg.append(expr_str);
        msg.append("': number literal out of range");
        proof {
            reveal_strlit("number literal out of range");
            reveal_strlit("': number literal out of range");
            reveal_strlit("': ");
            assert("': number literal out of range"@ =~= "': "@ + number_range_msg());
        }
        return Err(SpallCliError::Usage(msg));
    }
    let doc = json::to_json_text(response_json);
    match jmespath_search(expr_str, doc.as_str()) {
        Ok((_, v)) => Ok(v),
        Err(JmesFailure::Compile(m)) => {
            let mut msg = String::from_str("chain jmespath compile error for '");
            msg.append(expr_str);
            msg.append("': ");
            msg.append(m.as_str());
            Err(SpallCliError::Usage(msg))
        }
        Err(JmesFailure::Search(m)) => {
            let mut msg = String::from_str("chain jmespath search error for '");
            msg.append(expr_str);
            msg.append("': ");
            msg.append(m.as_str());
            Err(SpallCliError::Usage(msg))
        }
    }
}

/// A parameter name as a flag suffix: lowercase, `_` written as `-`.
pub open spec fn kebab(s: Seq<char>) -> Seq<char> {
    s.map_values(|c: char| if c == '_' { '-' } else { text::lower_char(c) })
}

/// The command-line flag of a parameter: none for a path parameter (it is
/// positional), `--name` for a query parameter, `--header-name` and
/// `--cookie-name` (kebab-cased) for the others; `x-cli-name` replaces the
/// name when given.
pub open spec fn flag_of(p: ParamInfo) -> Option<Seq<char>> {
    let long = match p.cli_name {
        Some(c) => c@,
        None => p.name@,
    };
    match p.location {
        ParameterLocation::Path => None,
        ParameterLocation::Query => Some("--"@ + long),
        ParameterLocation::Header => Some("--header-"@ + kebab(long)),
        ParameterLocation::Cookie => Some("--cookie-"@ + kebab(long)),
    }
}

/// The kebab-cased characters of `s`.
pub(crate) fn kebab_exec(s: &str) -> (r: String)
    ensures
        r@ == kebab(s@),
{
    let v = text::chars_of(s);
    let mut out: Vec<char> = Vec::new();
    let mut i: usize = 0;
    while i < v.len()
        invariant
            i <= v.len(),
            v@ == s@,
            out@ == kebab(v@.subrange(0, i as int)),
        decreases v.len() - i,
    {
        let c = v[i];
        if c == '_' {
            out.push('-');
        } else {
            out.push(text::lower_char_exec(c));
        }
        proof {
            assert(kebab(v@.subrange(0, i + 1)) =~= kebab(v@.subrange(0, i as int)).push(
                if c == '_' { '-' } else { text::lower_char(c) }));
        }
        i = i + 1;
    }
    proof {
        assert(v@.subrange(0, v@.len() as int) =~= v@);
    }
    text::string_of(&out)
}

/// Derive the command-line long flag of a parameter.
pub fn flag_for(param: &ParamInfo) -> (r: Option<String>)
    ensures
        match (r, flag_of(*param)) {
            (Some(a), Some(b)) => a@ == b,
            (None, None) => true,
            _ => false,
        },
{
    let long_name: &str = match &param.cli_name {
        Some(c) => c.as_str(),
        None => param.name.as_str(),
    };
    match param.location {
        ParameterLocation::Path => None,
        ParameterLocation::Query => Some(String::from_str("--").concat(long_name)),
        ParameterLocation::Header => {
            let k = kebab_exec(long_name);
            Some(String::from_str("--header-").concat(k.as_str()))
        }
        ParameterLocation::Cookie => {
            let k = kebab_exec(long_name);
            Some(String::from_str("--cookie-").concat(k.as_str()))
        }
    }
}

/// Index of the first parameter called `k`.
pub open spec fn first_param_index(params: Seq<ParamInfo>, k: Seq<char>) -> Option<int>
    decreases params.len(),
{
    if params.len() == 0 {
        None
    } else if params[0].name@ == k {
        Some(0)
    } else {
        match first_param_index(params.drop_first(), k) {
            Some(i) => Some(i + 1),
            None => None,
        }
    }
}

/// `first_param_index` names a parameter of that name with none before it.
pub proof fn lemma_first_param_index(params: Seq<ParamInfo>, k: Seq<char>)
    ensures
        first_param_index(params, k) matches Some(i) ==> 0 <= i < params.len() && params[i].name@ == k
            && forall|j: int| 0 <= j < i ==> params[j].name@ != k,
        first_param_index(params, k) is None ==> forall|j: int| 0 <= j < params.len() ==> params[j].name@ != k,
    decreases params.len(),
{
    if params.len() > 0 && params[0].name@ != k {
        lemma_first_param_index(params.drop_first(), k);
        assert forall|j: int| 1 <= j < params.len() implies params[j] == params.drop_first()[j - 1] by {}
    }
}

/// The error for a binding that names no parameter of the target.
pub open spec fn no_param_msg(target: Seq<char>, key: Seq<char>) -> Seq<char> {
    "chain target operation '"@ + target + "' has no parameter '"@ + key + "'"@
}

/// Path values tagged with their parameter's declaration index, and flag
/// arguments, for a run of bindings; or the first usage-error message.
pub open spec fn resolve_fold(
    target: Seq<char>,
    params: Seq<ParamInfo>,
    binds: Seq<(Seq<char>, Seq<char>)>,
    doc: json::JsonV,
) -> Result<(Seq<(int, Seq<char>)>, Seq<Seq<char>>), Seq<char>>
    decreases binds.len(),
{
    if binds.len() == 0 {
        Ok((seq![], seq![]))
    } else {
        match resolve_fold(target, params, binds.drop_last(), doc) {
            Err(e) => Err(e),
            Ok((pos, flags)) => {
                let (k, ex) = binds.last();
                match first_param_index(params, k) {
                    None => Err(no_param_msg(target, k)),
                    Some(o) => match eval_of(ex, doc) {
                        Err(m) => Err(m),
                        Ok(v) => match flag_of(params[o]) {
                            None => Ok((pos.push((o, v)), flags)),
                            Some(f) => Ok((pos, flags.push(f).push(v))),
                        },
                    },
                }
            },
        }
    }
}

/// Inserts `x` after every entry whose index is not larger.
pub open spec fn ins_by_order(s: Seq<(int, Seq<char>)>, x: (int, Seq<char>)) -> Seq<(int, Seq<char>)>
    decreases s.len(),
{
    if s.len() > 0 && x.0 < s.last().0 {
        ins_by_order(s.drop_last(), x).push(s.last())
    } else {
        s.push(x)
    }
}

/// The stable sort of `s` by declaration index.
pub open spec fn sort_by_order(s: Seq<(int, Seq<char>)>) -> Seq<(int, Seq<char>)>
    decreases s.len(),
{
    if s.len() == 0 {
        seq![]
    } else {
        ins_by_order(sort_by_order(s.drop_last()), s.last())
    }
}

/// Inserting at the first position after which every index is larger is
/// what `ins_by_order` does.
proof fn lemma_ins_by_order_at(s: Seq<(int, Seq<char>)>, x: (int, Seq<char>), p: int)
    requires
        0 <= p <= s.len(),
        forall|i: int| p <= i < s.len() ==> x.0 < #[trigger] s[i].0,
        p == 0 || !(x.0 < s[p - 1].0),
    ensures
        ins_by_order(s, x) == s.insert(p, x),
    decreases s.len(),
{
    if p < s.len() {
        assert(x.0 < s[s.len() - 1].0);
        lemma_ins_by_order_at(s.drop_last(), x, p);
        assert(s.drop_last().insert(p, x).push(s.last()) =~= s.insert(p, x));
    } else {
        assert(s.push(x) =~= s.insert(p, x));
    }
}

/// The command-line arguments a chain resolves to: the target, then the
/// path values in declaration order, then the flag arguments in binding
/// order.
pub open spec fn resolved_args(target: Seq<char>, pos: Seq<(int, Seq<char>)>, flags: Seq<Seq<char>>) -> Seq<Seq<char>> {
    seq![target] + sort_by_order(pos).map_values(|e: (int, Seq<char>)| e.1) + flags
}

/// The views of a vector of strings.
pub open spec fn str_views(v: Seq<String>) -> Seq<Seq<char>> {
    v.map_values(|s: String| s@)
}

/// The views of tagged path values.
pub open spec fn pos_views(v: Seq<(usize, String)>) -> Seq<(int, Seq<char>)> {
    v.map_values(|e: (usize, String)| (e.0 as int, e.1@))
}

impl ChainExpr {
    /// Evaluate the JMESPath expressions against the response JSON and
    /// return the command-line arguments for the target operation: path
    /// parameters as positionals in declaration order, every other
    /// location as its flag. A binding that names no parameter of the
    /// target is a usage error.
    pub fn resolve(&self, response_json: &Json, target_op: &OperationInfo) -> (r: Result<Vec<String>, SpallCliError>)
        ensures
            match (r, resolve_fold(self.target_op_id@, target_op.parameters@, binding_views(self.bindings@), response_json@)) {
                (Ok(a), Ok((pos, flags))) => str_views(a@) == resolved_args(self.target_op_id@, pos, flags),
                (Err(SpallCliError::Usage(m)), Err(e)) => m@ == e,
                _ => false,
            },
    {
        let params = &target_op.parameters;
        let ghost bv = binding_views(self.bindings@);
        let mut path_values: Vec<(usize, String)> = Vec::new();
        let mut flag_args: Vec<String> = Vec::new();
        let mut i: usize = 0;
        proof {
            assert(pos_views(path_values@) =~= Seq::<(int, Seq<char>)>::empty());
            assert(str_views(flag_args@) =~= Seq::<Seq<char>>::empty());
        }
        while i < self.bindings.len()
            invariant
                i <= self.bindings.len(),
                params@ == target_op.parameters@,
                bv == binding_views(self.bindings@),
                resolve_fold(self.target_op_id@, params@, bv.subrange(0, i as int), response_json@)
                    == Ok::<(Seq<(int, Seq<char>)>, Seq<Seq<char>>), Seq<char>>((pos_views(path_values@), str_views(flag_args@))),
            decreases self.bindings.len() - i,
        {
            let key = self.bindings[i].0.as_str();
            let expr = self.bindings[i].1.as_str();
            proof {
                let t = bv.subrange(0, i + 1);
                assert(t.drop_last() =~= bv.subrange(0, i as int));
                assert(t.last() == bv[i as int]);
                lemma_first_param_index(params@, key@);
            }
            let mut o: usize = 0;
            while o < params.len() && !crate::json::str_eq(params[o].name.as_str(), key)
                invariant
                    o <= params.len(),
                    forall|j: int| 0 <= j < o ==> params@[j].name@ != key@,
                decreases params.len() - o,
            {
                o = o + 1;
            }
            if o == params.len() {
                proof {
                    if let Some(x) = first_param_index(params@, key@) {
                        assert(params@[x].name@ == key@);
                    }
                }
                let mut m = String::from_str("chain target operation '");
                m.append(self.target_op_id.as_str());
                m.append("' has no parameter '");
                m.append(key);
                m.append("'");
                proof {
                    let t = bv.subrange(0, i + 1);
                    assert(t.last() == (key@, expr@));
                    assert(first_param_index(params@, key@) is None);
                    assert(m@ =~= no_param_msg(self.target_op_id@, key@));
                    assert(resolve_fold(self.target_op_id@, params@, t, response_json@)
                        == Err::<(Seq<(int, Seq<char>)>, Seq<Seq<char>>), Seq<char>>(no_param_msg(self.target_op_id@, key@)));
                    self.lemma_resolve_err_sticks_msg(params@, bv, i as int + 1, response_json@, m@);
                }
                return Err(SpallCliError::Usage(m));
            }
            proof {
                if let Some(x) = first_param_index(params@, key@) {
                    if x < o {
                    } else if x > o {
                        assert(params@[o as int].name@ == key@);
                    }
                }
            }
            let value = match eval(response_json, expr) {
                Ok(v) => v,
                Err(e) => {
                    let ghost ge = e;
                    proof {
                        let t = bv.subrange(0, i + 1);
                        assert(t.last() == (key@, expr@));
                        assert(first_param_index(params@, key@) == Some(o as int));
                        if let SpallCliError::Usage(m) = ge {
                            assert(resolve_fold(self.target_op_id@, params@, t, response_json@)
                                == Err::<(Seq<(int, Seq<char>)>, Seq<Seq<char>>), Seq<char>>(m@));
                            self.lemma_resolve_err_sticks_msg(params@, bv, i as int + 1, response_json@, m@);
                        }
                    }
                    return Err(e);
                }
            };
            match flag_for(&params[o]) {
                None => {
                    let ghost before = path_values@;
                    path_values.push((o, value));
                    proof {
                        assert(pos_views(path_values@) =~= pos_views(before).push((o as int, value@)));
                    }
                }
                Some(flag) => {
                    let ghost before = flag_args@;
                    flag_args.push(flag);
                    flag_args.push(value);
                    proof {
                        assert(str_views(flag_args@) =~= str_views(before).push(flag@).push(value@));
                    }
                }
            }
            i = i + 1;
        }
        proof {
            assert(bv.subrange(0, i as int) =~= bv);
        }
        let sorted = sort_by_index(path_values);
        let mut args: Vec<String> = Vec::new();
        args.push(self.target_op_id.clone());
        let mut j: usize = 0;
        while j < sorted.len()
            invariant
                j <= sorted.len(),
                str_views(args@) == seq![self.target_op_id@] + pos_views(sorted@).map_values(|e: (int, Seq<char>)| e.1).subrange(0, j as int),
            decreases sorted.len() - j,
        {
            let ghost before = args@;
            args.push(sorted[j].1.clone());
            proof {
                assert(str_views(args@) =~= str_views(before).push(sorted@[j as int].1@));
                assert(pos_views(sorted@).map_values(|e: (int, Seq<char>)| e.1).subrange(0, j + 1) =~=
                    pos_views(sorted@).map_values(|e: (int, Seq<char>)| e.1).subrange(0, j as int).push(sorted@[j as int].1@));
            }
            j = j + 1;
        }
        let mut k: usize = 0;
        let ghost head = args@;
        proof {
            assert(pos_views(sorted@).map_values(|e: (int, Seq<char>)| e.1).subrange(0, j as int) =~=
                pos_views(sorted@).map_values(|e: (int, Seq<char>)| e.1));
        }
        while k < flag_args.len()
            invariant
                k <= flag_args.len(),
                str_views(args@) == str_views(head) + str_views(flag_args@).subrange(0, k as int),
            decreases flag_args.len() - k,
        {
            let ghost before = args@;
            args.push(flag_args[k].clone());
            proof {
                assert(str_views(args@) =~= str_views(before).push(flag_args@[k as int]@));
                assert(str_views(flag_args@).subrange(0, k + 1) =~= str_views(flag_args@).subrange(0, k as int).push(flag_args@[k as int]@));
            }
            k = k + 1;
        }
        proof {
            assert(str_views(flag_args@).subrange(0, k as int) =~= str_views(flag_args@));
            assert(str_views(args@) =~= resolved_args(self.target_op_id@, pos_views(path_values@), str_views(flag_args@)));
        }
        Ok(args)
    }

    /// Once a binding is refused, resolution is refused with that message.
    proof fn lemma_resolve_err_sticks_msg(&self, params: Seq<ParamInfo>, bv: Seq<(Seq<char>, Seq<char>)>, j: int, doc: json::JsonV, e: Seq<char>)
        requires
            0 <= j <= bv.len(),
            resolve_fold(self.target_op_id@, params, bv.subrange(0, j), doc) == Err::<(Seq<(int, Seq<char>)>, Seq<Seq<char>>), Seq<char>>(e),
        ensures
            resolve_fold(self.target_op_id@, params, bv, doc) == Err::<(Seq<(int, Seq<char>)>, Seq<Seq<char>>), Seq<char>>(e),
        decreases bv.len() - j,
    {
        if j < bv.len() {
            let t = bv.subrange(0, j + 1);
            assert(t.drop_last() =~= bv.subrange(0, j));
            self.lemma_resolve_err_sticks_msg(params, bv, j + 1, doc, e);
        } else {
            assert(bv.subrange(0, j) =~= bv);
        }
    }
}

/// Stable sort of tagged path values by declaration index.
fn sort_by_index(v: Vec<(usize, String)>) -> (r: Vec<(usize, String)>)
    ensures
        pos_views(r@) == sort_by_order(pos_views(v@)),
{
    let ghost orig = v@;
    let mut v = v;
    let mut r: Vec<(usize, String)> = Vec::new();
    let ghost mut k: int = 0;
    proof {
        assert(pos_views(r@) =~= sort_by_order(pos_views(orig.subrange(0, 0))));
    }
    while v.len() > 0
        invariant
            0 <= k <= orig.len(),
            v@ == orig.subrange(k, orig.len() as int),
            pos_views(r@) == sort_by_order(pos_views(orig.subrange(0, k))),
        decreases v.len(),
    {
        let x = v.remove(0);
        proof {
            assert(x == orig[k]);
            assert(v@ =~= orig.subrange(k + 1, orig.len() as int));
        }
        let mut p = r.len();
        while p > 0 && x.0 < r[p - 1].0
            invariant
                p <= r.len(),
                forall|i: int| p <= i < r@.len() ==> (x.0 as int) < #[trigger] pos_views(r@)[i].0,
            decreases p,
        {
            p = p - 1;
        }
        proof {
            lemma_ins_by_order_at(pos_views(r@), (x.0 as int, x.1@), p as int);
            assert(pos_views(orig.subrange(0, k + 1)).drop_last() =~= pos_views(orig.subrange(0, k)));
            assert(pos_views(orig.subrange(0, k + 1)).last() == (x.0 as int, x.1@));
        }
        let ghost before = r@;
        r.insert(p, x);
        proof {
            assert(pos_views(r@) =~= pos_views(before).insert(p as int, (x.0 as int, x.1@)));
            k = k + 1;
        }
    }
    proof {
        assert(orig.subrange(0, k) =~= orig);
    }
    r
}
} // verus!
