//! A JSON value held as plain data, so that the rules that read response
//! bodies can be stated and proved. Object members keep the order in which
//! they were produced; numbers keep their textual form.

use vstd::prelude::*;

verus! {

broadcast use vstd::std_specs::vec::group_vec_axioms;

/// A JSON document.
pub enum Json {
    Null,
    Bool(bool),
    /// A number, held as its JSON text (for instance `42` or `-1.5`).
    Number(String),
    Str(String),
    Array(Vec<Json>),
    /// Members in iteration order.
    Object(Vec<(String, Json)>),
}

/// Hexadecimal digit (lowercase) for a value below 16.
pub open spec fn hex_digit(n: u32) -> char {
    if n < 10 {
        (('0' as u32) + n) as char
    } else {
        (('a' as u32) + n - 10) as char
    }
}

/// How one character is written inside a JSON string literal.
pub open spec fn escape_char(c: char) -> Seq<char> {
    if c == '"' {
        seq!['\\', '"']
    } else if c == '\\' {
        seq!['\\', '\\']
    } else if c == '\u{8}' {
        seq!['\\', 'b']
    } else if c == '\t' {
        seq!['\\', 't']
    } else if c == '\n' {
        seq!['\\', 'n']
    } else if c == '\u{c}' {
        seq!['\\', 'f']
    } else if c == '\r' {
        seq!['\\', 'r']
    } else if (c as u32) < 0x20 {
        seq!['\\', 'u', '0', '0', hex_digit((c as u32) / 16), hex_digit((c as u32) % 16)]
    } else {
        seq![c]
    }
}

/// The escaped body of a JSON string literal.
pub open spec fn escape_str(s: Seq<char>) -> Seq<char>
    decreases s.len(),
{
    if s.len() == 0 {
        seq![]
    } else {
        escape_str(s.drop_last()) + escape_char(s.last())
    }
}

/// A JSON string literal for `s`, as compact JSON writers print it.
pub open spec fn quote(s: Seq<char>) -> Seq<char> {
    seq!['"'] + escape_str(s) + seq!['"']
}

/// The mathematical value of a JSON document.
pub enum JsonV {
    Null,
    Bool(bool),
    Number(Seq<char>),
    Str(Seq<char>),
    Array(Seq<JsonV>),
    Object(Seq<(Seq<char>, JsonV)>),
}

/// The value a `Json` holds.
pub open spec fn jv(j: Json) -> JsonV
    decreases j, 1int,
{
    match j {
        Json::Null => JsonV::Null,
        Json::Bool(b) => JsonV::Bool(b),
        Json::Number(n) => JsonV::Number(n@),
        Json::Str(s) => JsonV::Str(s@),
        Json::Array(a) => {
            proof {
                assert(decreases_to!(a => a@));
            }
            JsonV::Array(jv_items(a@))
        },
        Json::Object(m) => {
            proof {
                assert(decreases_to!(m => m@));
            }
            JsonV::Object(jv_members(m@))
        },
    }
}

/// The values of a run of array items.
pub open spec fn jv_items(s: Seq<Json>) -> Seq<JsonV>
    decreases s, 0int,
{
    if s.len() == 0 {
        seq![]
    } else {
        jv_items(s.drop_last()).push(jv(s.last()))
    }
}

/// The values of a run of object members.
pub open spec fn jv_members(s: Seq<(String, Json)>) -> Seq<(Seq<char>, JsonV)>
    decreases s, 0int,
{
    if s.len() == 0 {
        seq![]
    } else {
        proof {
            assert(decreases_to!(s => s.last()));
            assert(decreases_to!(s.last() => s.last().1));
        }
        jv_members(s.drop_last()).push((s.last().0@, jv(s.last().1)))
    }
}

impl View for Json {
    type V = JsonV;

    open spec fn view(&self) -> JsonV {
        jv(*self)
    }
}

/// The first member of `members` named `key`.
pub open spec fn member(members: Seq<(Seq<char>, JsonV)>, key: Seq<char>) -> Option<JsonV>
    decreases members.len(),
{
    if members.len() == 0 {
        None
    } else if members[0].0 == key {
        Some(members[0].1)
    } else {
        member(members.drop_first(), key)
    }
}

impl JsonV {
    /// `self[key]` for an object; `None` for a missing key or a non-object.
    pub open spec fn get(self, key: Seq<char>) -> Option<JsonV> {
        match self {
            JsonV::Object(m) => member(m, key),
            _ => None,
        }
    }

    /// The text of a string value.
    pub open spec fn as_str(self) -> Option<Seq<char>> {
        match self {
            JsonV::Str(s) => Some(s),
            _ => None,
        }
    }
}

/// The member views of an object's member vector.
pub open spec fn members_view(m: Seq<(String, Json)>) -> Seq<(Seq<char>, JsonV)> {
    jv_members(m)
}

/// The item views of an array's item vector.
pub open spec fn items_view(a: Seq<Json>) -> Seq<JsonV> {
    jv_items(a)
}

/// Item `i` of `jv_items(s)` is the value of `s[i]`.
pub broadcast proof fn lemma_jv_items(s: Seq<Json>)
    ensures
        #[trigger] jv_items(s).len() == s.len(),
        forall|i: int| 0 <= i < s.len() ==> #[trigger] jv_items(s)[i] == jv(s[i]),
    decreases s.len(),
{
    if s.len() > 0 {
        lemma_jv_items(s.drop_last());
    }
}

/// Member `i` of `jv_members(s)` is the name and value of `s[i]`.
pub broadcast proof fn lemma_jv_members(s: Seq<(String, Json)>)
    ensures
        #[trigger] jv_members(s).len() == s.len(),
        forall|i: int| 0 <= i < s.len() ==> #[trigger] jv_members(s)[i] == (s[i].0@, jv(s[i].1)),
    decreases s.len(),
{
    if s.len() > 0 {
        lemma_jv_members(s.drop_last());
    }
}

impl Json {
    /// Looks up `key` in an object (first member of that name).
    pub fn get(&self, key: &str) -> (r: Option<&Json>)
        ensures
            r matches Some(v) ==> self@.get(key@) == Some(v@),
            r is None ==> self@.get(key@) is None,
    {
        match self {
            Json::Object(m) => {
                let ghost mv = members_view(m@);
                proof {
                    lemma_jv_members(m@);
                }
                let mut i: usize = 0;
                proof {
                    assert(mv.subrange(0, mv.len() as int) =~= mv);
                    assert(self@ == JsonV::Object(mv));
                }
                while i < m.len()
                    invariant
                        i <= m.len() == mv.len(),
                        mv == members_view(m@),
                        forall|k: int| 0 <= k < mv.len() ==> #[trigger] mv[k] == (m@[k].0@, jv(m@[k].1)),
                        member(mv, key@) == member(mv.subrange(i as int, mv.len() as int), key@),
                        self@.get(key@) == member(mv, key@),
                    decreases m.len() - i,
                {
                    proof {
                        let rest = mv.subrange(i as int, mv.len() as int);
                        assert(rest.drop_first() =~= mv.subrange(i + 1, mv.len() as int));
                    }
                    if str_eq(m[i].0.as_str(), key) {
                        proof {
                            let rest = mv.subrange(i as int, mv.len() as int);
                            assert(rest[0] == mv[i as int]);
                        }
                        return Some(&m[i].1);
                    }
                    i = i + 1;
                }
                None
            }
            _ => None,
        }
    }

    /// The text of a string value, if this is one.
    pub fn as_str(&self) -> (r: Option<&String>)
        ensures
            r matches Some(s) ==> self@.as_str() == Some(s@),
            r is None ==> self@.as_str() is None,
    {
        match self {
            Json::Str(s) => Some(s),
            _ => None,
        }
    }
}

/// Equality of two string slices by content.
pub fn str_eq(a: &str, b: &str) -> (r: bool)
    ensures
        r == (a@ == b@),
{
    let n = a.unicode_len();
    if n != b.unicode_len() {
        return false;
    }
    let mut i: usize = 0;
    while i < n
        invariant
            n == a@.len() == b@.len(),
            i <= n,
            forall|k: int| 0 <= k < i ==> a@[k] == b@[k],
        decreases n - i,
    {
        if a.get_char(i) != b.get_char(i) {
            return false;
        }
        i = i + 1;
    }
    proof {
        assert(a@ =~= b@);
    }
    true
}

/// `serde_json::to_string` on a string slice: the compact JSON string
/// literal for `s` — `"` and `\` backslash-escaped, `\b \t \n \f \r` for those
/// controls, `\u00xx` (lowercase hex) for the other characters below U+0020,
/// everything else written as it is. Writing into a `Vec` cannot fail, so
/// the fallback is never taken.
#[verifier::external_body]
pub(crate) fn json_quote(s: &str) -> (r: String)
    ensures
        r@ == quote(s@),
{
    serde_json::to_string(s).unwrap_or_else(|_| String::from("\"\""))
}


/// The compact JSON text of a value (no whitespace; members in order).
pub open spec fn json_text(j: JsonV) -> Seq<char>
    decreases j, 2int,
{
    match j {
        JsonV::Null => "null"@,
        JsonV::Bool(b) => if b { "true"@ } else { "false"@ },
        JsonV::Number(n) => n,
        JsonV::Str(s) => quote(s),
        JsonV::Array(items) => seq!['['] + items_text(items) + seq![']'],
        JsonV::Object(m) => seq!['{'] + members_text(m) + seq!['}'],
    }
}

/// Array items written one after another, separated by commas.
pub open spec fn items_text(s: Seq<JsonV>) -> Seq<char>
    decreases s, 1int,
{
    if s.len() == 0 {
        seq![]
    } else if s.len() == 1 {
        json_text(s[0])
    } else {
        proof {
            assert(decreases_to!(s => s.drop_last()));
        }
        items_text(s.drop_last()) + seq![','] + json_text(s[s.len() - 1])
    }
}

/// Object members written `"name":value`, separated by commas.
pub open spec fn members_text(m: Seq<(Seq<char>, JsonV)>) -> Seq<char>
    decreases m, 1int,
{
    if m.len() == 0 {
        seq![]
    } else if m.len() == 1 {
        proof {
            assert(decreases_to!(m => m[0]));
            assert(decreases_to!(m[0] => m[0].1));
        }
        quote(m[0].0) + seq![':'] + json_text(m[0].1)
    } else {
        proof {
            assert(decreases_to!(m => m.drop_last()));
            assert(decreases_to!(m => m[m.len() - 1]));
            assert(decreases_to!(m[m.len() - 1] => m[m.len() - 1].1));
        }
        members_text(m.drop_last()) + seq![','] + quote(m[m.len() - 1].0) + seq![':'] + json_text(m[m.len() - 1].1)
    }
}

/// Appends the compact JSON text of `j`.
pub fn write_json(j: &Json, out: &mut String)
    ensures
        final(out)@ == old(out)@ + json_text(j@),
    decreases j,
{
    proof {
        reveal_strlit("null");
        reveal_strlit("true");
        reveal_strlit("false");
    }
    match j {
        Json::Null => out.append("null"),
        Json::Bool(b) => {
            if *b {
                out.append("true");
            } else {
                out.append("false");
            }
        }
        Json::Number(n) => out.append(n.as_str()),
        Json::Str(s) => {
            let q = json_quote(s.as_str());
            out.append(q.as_str());
        }
        Json::Array(a) => {
            let ghost start = out@;
            let ghost iv = jv_items(a@);
            proof {
                lemma_jv_items(a@);
            }
            crate::text::push_char(out, '[');
            let mut i: usize = 0;
            while i < a.len()
                invariant
                    i <= a.len(),
                    iv == jv_items(a@),
                    iv.len() == a@.len(),
                    forall|k: int| 0 <= k < a@.len() ==> #[trigger] iv[k] == jv(a@[k]),
                    out@ == start + seq!['['] + items_text(iv.subrange(0, i as int)),
                    *j == Json::Array(*a),
                decreases a.len() - i,
            {
                if i > 0 {
                    crate::text::push_char(out, ',');
                }
                proof {
                    assert(j->Array_0 == *a);
                    assert(decreases_to!(*j => j->Array_0));
                    assert(decreases_to!(*a => a@));
                    assert(decreases_to!(a@ => a@[i as int]));
                }
                write_json(&a[i], out);
                proof {
                    let t = iv.subrange(0, i + 1);
                    assert(t.drop_last() =~= iv.subrange(0, i as int));
                    assert(t[t.len() - 1] == iv[i as int]);
                    if i == 0 {
                        assert(t.len() == 1);
                        assert(t[0] == iv[0]);
                    }
                    assert(out@ =~= start + seq!['['] + items_text(t));
                }
                i = i + 1;
            }
            crate::text::push_char(out, ']');
            proof {
                assert(iv.subrange(0, i as int) =~= iv);
            }
        }
        Json::Object(m) => {
            let ghost start = out@;
            let ghost mv = jv_members(m@);
            proof {
                lemma_jv_members(m@);
            }
            crate::text::push_char(out, '{');
            let mut i: usize = 0;
            while i < m.len()
                invariant
                    i <= m.len(),
                    mv == jv_members(m@),
                    mv.len() == m@.len(),
                    forall|k: int| 0 <= k < m@.len() ==> #[trigger] mv[k] == (m@[k].0@, jv(m@[k].1)),
                    out@ == start + seq!['{'] + members_text(mv.subrange(0, i as int)),
                    *j == Json::Object(*m),
                decreases m.len() - i,
            {
                if i > 0 {
                    crate::text::push_char(out, ',');
                }
                let q = json_quote(m[i].0.as_str());
                out.append(q.as_str());
                crate::text::push_char(out, ':');
                proof {
                    assert(j->Object_0 == *m);
                    assert(decreases_to!(*j => j->Object_0));
                    assert(decreases_to!(*m => m@));
                    assert(decreases_to!(m@ => m@[i as int]));
                    assert(decreases_to!(m@[i as int] => m@[i as int].1));
                }
                write_json(&m[i].1, out);
                proof {
                    let t = mv.subrange(0, i + 1);
                    assert(t.drop_last() =~= mv.subrange(0, i as int));
                    assert(t[t.len() - 1] == mv[i as int]);
                    if i == 0 {
                        assert(t.len() == 1);
                        assert(t[0] == mv[0]);
                    }
                    assert(out@ =~= start + seq!['{'] + members_text(t));
                }
                i = i + 1;
            }
            crate::text::push_char(out, '}');
            proof {
                assert(mv.subrange(0, i as int) =~= mv);
            }
        }
    }
}

/// The compact JSON text of `j`, as `serde_json::Value`'s `Display` writes it.
pub fn to_json_text(j: &Json) -> (r: String)
    ensures
        r@ == json_text(j@),
{
    let mut out = String::new();
    write_json(j, &mut out);
    out
}

/// `serde_json`'s JSON value.
#[verifier::external_type_specification]
#[verifier::external_body]
pub struct ExValue(serde_json::Value);

/// What `serde_json::from_str` reads from `text`: the value as the
/// library's JSON (members in the order `serde_json` keeps them, numbers as
/// `serde_json` writes them), or the text of its error.
pub uninterp spec fn json_parsed(text: Seq<char>) -> Result<JsonV, Seq<char>>;

/// What `serde_json::from_slice` reads from some bytes, in the same terms.
pub uninterp spec fn json_parsed_bytes(bytes: Seq<u8>) -> Result<JsonV, Seq<char>>;

/// A `serde_json` value as the library's JSON, variant for variant; a
/// number becomes the text `serde_json` writes for it.
#[verifier::external_body]
fn json_of_value(v: serde_json::Value) -> Json {
    match v {
        serde_json::Value::Null => Json::Null,
        serde_json::Value::Bool(b) => Json::Bool(b),
        serde_json::Value::Number(n) => Json::Number(n.to_string()),
        serde_json::Value::String(s) => Json::Str(s),
        serde_json::Value::Array(a) => Json::Array(a.into_iter().map(json_of_value).collect()),
        serde_json::Value::Object(m) => Json::Object(m.into_iter().map(|(k, v)| (k, json_of_value(v))).collect()),
    }
}

/// `serde_json::from_str::<Value>`: the value it reads or its error's
/// text, named.
#[verifier::external_body]
pub(crate) fn parse_json(text: &str) -> (r: Result<Json, String>)
    ensures
        match r {
            Ok(j) => json_parsed(text@) == Ok::<JsonV, Seq<char>>(j@),
            Err(e) => json_parsed(text@) == Err::<JsonV, Seq<char>>(e@),
        },
{
    serde_json::from_str::<serde_json::Value>(text).map(json_of_value).map_err(|e| e.to_string())
}

/// `serde_json::from_slice::<Value>`: the value it reads or its error's
/// text, named.
#[verifier::external_body]
pub(crate) fn parse_json_bytes(bytes: &[u8]) -> (r: Result<Json, String>)
    ensures
        match r {
            Ok(j) => json_parsed_bytes(bytes@) == Ok::<JsonV, Seq<char>>(j@),
            Err(e) => json_parsed_bytes(bytes@) == Err::<JsonV, Seq<char>>(e@),
        },
{
    serde_json::from_slice::<serde_json::Value>(bytes).map(json_of_value).map_err(|e| e.to_string())
}

/// The text `serde_json::to_string_pretty` writes for a value given as the
/// library's JSON (each number read back by `serde_json` from its text).
pub uninterp spec fn pretty_text(j: JsonV) -> Seq<char>;

/// The library's JSON as a `serde_json` value, variant for variant; a
/// number's text is read by `serde_json` (`null` when it is no number).
#[verifier::external_body]
fn value_of_json(j: &Json) -> serde_json::Value {
    match j {
        Json::Null => serde_json::Value::Null,
        Json::Bool(b) => serde_json::Value::Bool(*b),
        Json::Number(t) => serde_json::from_str::<serde_json::Number>(t).map(serde_json::Value::Number).unwrap_or(serde_json::Value::Null),
        Json::Str(s) => serde_json::Value::String(s.clone()),
        Json::Array(a) => serde_json::Value::Array(a.iter().map(value_of_json).collect()),
        Json::Object(m) => serde_json::Value::Object(m.iter().map(|(k, v)| (k.clone(), value_of_json(v))).collect()),
    }
}

/// `serde_json::to_string_pretty`: the text, named (writing a `Value`
/// into a `String` cannot fail).
#[verifier::external_body]
pub(crate) fn pretty_json(j: &Json) -> (r: String)
    ensures
        r@ == pretty_text(j@),
{
    serde_json::to_string_pretty(&value_of_json(j)).unwrap_or_default()
}

/// A deep copy of a JSON value.
pub fn copy_json(j: &Json) -> (r: Json)
    ensures
        r@ == j@,
    decreases j,
{
    match j {
        Json::Null => Json::Null,
        Json::Bool(b) => Json::Bool(*b),
        Json::Number(n) => Json::Number(n.clone()),
        Json::Str(s) => Json::Str(s.clone()),
        Json::Array(a) => {
            proof {
                lemma_jv_items(a@);
            }
            let mut out: Vec<Json> = Vec::new();
            let mut i: usize = 0;
            while i < a.len()
                invariant
                    i <= a.len(),
                    out@.len() == i,
                    forall|k: int| 0 <= k < i ==> #[trigger] jv(out@[k]) == jv(a@[k]),
                    *j == Json::Array(*a),
                decreases a.len() - i,
            {
                proof {
                    assert(j->Array_0 == *a);
                    assert(decreases_to!(*j => j->Array_0));
                    assert(decreases_to!(*a => a@));
                    assert(decreases_to!(a@ => a@[i as int]));
                }
                let c = copy_json(&a[i]);
                out.push(c);
                i = i + 1;
            }
            proof {
                lemma_jv_items(out@);
                assert(jv_items(out@) =~= jv_items(a@));
            }
            Json::Array(out)
        }
        Json::Object(m) => {
            proof {
                lemma_jv_members(m@);
            }
            let mut out: Vec<(String, Json)> = Vec::new();
            let mut i: usize = 0;
            while i < m.len()
                invariant
                    i <= m.len(),
                    out@.len() == i,
                    forall|k: int| 0 <= k < i ==> #[trigger] out@[k].0@ == m@[k].0@ && jv(out@[k].1) == jv(m@[k].1),
                    *j == Json::Object(*m),
                decreases m.len() - i,
            {
                proof {
                    assert(j->Object_0 == *m);
                    assert(decreases_to!(*j => j->Object_0));
                    assert(decreases_to!(*m => m@));
                    assert(decreases_to!(m@ => m@[i as int]));
                    assert(decreases_to!(m@[i as int] => m@[i as int].1));
                }
                let c = copy_json(&m[i].1);
                out.push((m[i].0.clone(), c));
                i = i + 1;
            }
            proof {
                lemma_jv_members(out@);
                assert(jv_members(out@) =~= jv_members(m@));
            }
            Json::Object(out)
        }
    }
}

/// The value of a string of decimal digits.
pub open spec fn digits_value(t: Seq<char>) -> nat
    decreases t.len(),
{
    if t.len() == 0 {
        0
    } else {
        digits_value(t.drop_last()) * 10 + ((t.last() as nat) - 48) as nat
    }
}

/// Whether every character is an ASCII digit.
pub open spec fn all_digits(t: Seq<char>) -> bool {
    forall|i: int| 0 <= i < t.len() ==> '0' <= #[trigger] t[i] && t[i] <= '9'
}

/// `Value::as_u64` on a number's text: a non-negative integer that fits.
pub open spec fn u64_of_number(t: Seq<char>) -> Option<u64> {
    if t.len() > 0 && all_digits(t) && digits_value(t) <= u64::MAX {
        Some(digits_value(t) as u64)
    } else {
        None
    }
}

impl JsonV {
    /// `Value::as_u64`.
    pub open spec fn as_u64(self) -> Option<u64> {
        match self {
            JsonV::Number(t) => u64_of_number(t),
            _ => None,
        }
    }
}

/// The value of a number's text as a `u64`, when it is a non-negative
/// integer that fits.
fn u64_of_text(t: &str) -> (r: Option<u64>)
    ensures
        r == u64_of_number(t@),
{
    let v = crate::text::chars_of(t);
    if v.len() == 0 {
        return None;
    }
    let mut acc: u64 = 0;
    let mut i: usize = 0;
    while i < v.len()
        invariant
            i <= v.len(),
            v@ == t@,
            all_digits(v@.subrange(0, i as int)),
            acc == digits_value(v@.subrange(0, i as int)),
        decreases v.len() - i,
    {
        proof {
            assert(v@.subrange(0, i + 1).drop_last() =~= v@.subrange(0, i as int));
        }
        let c = v[i];
        if !('0' <= c && c <= '9') {
            proof {
                assert(!all_digits(v@)) by {
                    assert(v@[i as int] == c);
                }
            }
            return None;
        }
        let d = (c as u32 - 48) as u64;
        if acc > (u64::MAX - d) / 10 {
            proof {
                lemma_digits_value_prefix(v@, i + 1);
                assert(digits_value(v@.subrange(0, i + 1)) == acc * 10 + d);
                assert(!all_digits(v@) || digits_value(v@) > u64::MAX);
            }
            return None;
        }
        acc = acc * 10 + d;
        i = i + 1;
    }
    proof {
        assert(v@.subrange(0, v@.len() as int) =~= v@);
    }
    Some(acc)
}

/// The value of a digit string is at least the value of any prefix.
pub proof fn lemma_digits_value_prefix(t: Seq<char>, n: int)
    requires
        0 <= n <= t.len(),
    ensures
        all_digits(t) ==> digits_value(t) >= digits_value(t.subrange(0, n)),
    decreases t.len() - n,
{
    if n < t.len() && all_digits(t) {
        lemma_digits_value_prefix(t, n + 1);
        assert(t.subrange(0, n + 1).drop_last() =~= t.subrange(0, n));
        assert('0' <= t[n]);
    }
    if n == t.len() {
        assert(t.subrange(0, n) =~= t);
    }
}

impl Json {
    /// `Value::as_u64`.
    pub fn as_u64(&self) -> (r: Option<u64>)
        ensures
            r == self@.as_u64(),
    {
        match self {
            Json::Number(t) => u64_of_text(t.as_str()),
            _ => None,
        }
    }
}

} // verus!
