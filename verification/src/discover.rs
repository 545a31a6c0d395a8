//! RFC 8631 spec autodiscovery: where an API's spec lives, and the name
//! and title it is registered under.

use vstd::prelude::*;
use crate::error::SpallCliError;
use crate::json::{Json, JsonV};
use crate::text;

verus! {

/// A discovered API.
pub struct DiscoveredApi {
    /// The suggested registration name (a slug of the title).
    pub name: String,
    pub title: String,
    pub spec_url: String,
}

/// The view of an optional string.
pub open spec fn opt_view(o: Option<String>) -> Option<Seq<char>> {
    match o {
        Some(s) => Some(s@),
        None => None,
    }
}

/// A link-value names the `service-desc` relation.
pub open spec fn mentions_service_desc(t: Seq<char>) -> bool {
    text::contains(t, "rel=\"service-desc"@) || text::contains(t, "rel=\"service-desc\""@)
        || text::contains(t, "rel='service-desc'"@) || text::contains(t, "rel=service-desc"@)
}

/// The target of a link-value: between the first `<` and the next `>`,
/// else between the first `"` and the next one.
pub open spec fn link_target(t: Seq<char>) -> Option<Seq<char>> {
    let angle = match text::index_of(t, '<') {
        Some(s) => match text::index_of(t.subrange(s, t.len() as int), '>') {
            Some(e) => Some(t.subrange(s + 1, s + e)),
            None => None,
        },
        None => None,
    };
    match angle {
        Some(a) => Some(a),
        None => match text::index_of(t, '"') {
            Some(s) => match text::index_of(t.subrange(s + 1, t.len() as int), '"') {
                Some(e) => Some(t.subrange(s + 1, s + 1 + e)),
                None => None,
            },
            None => None,
        },
    }
}

/// The first `service-desc` target among some link-values.
pub open spec fn service_desc_of(parts: Seq<Seq<char>>) -> Option<Seq<char>>
    decreases parts.len(),
{
    if parts.len() == 0 {
        None
    } else if mentions_service_desc(text::trim(parts[0])) && link_target(text::trim(parts[0])) is Some {
        link_target(text::trim(parts[0]))
    } else {
        service_desc_of(parts.drop_first())
    }
}

/// The `service-desc` target of a `Link` header (its comma-separated
/// link-values are tried in order).
pub open spec fn service_desc_link(header: Seq<char>) -> Option<Seq<char>> {
    service_desc_of(text::split(header, ','))
}

/// Whether `hay` contains the literal `needle`.
fn has(hay: &Vec<char>, needle: &str) -> (b: bool)
    ensures
        b == text::contains(hay@, needle@),
{
    text::contains_exec(hay, &text::chars_of(needle))
}

/// The target of a link-value (see `link_target`).
fn link_target_exec(t: &Vec<char>) -> (r: Option<String>)
    ensures
        opt_view(r) == link_target(t@),
{
    if let Some(s) = text::find_char(t, '<') {
        proof {
            text::lemma_index_of(t@, '<');
        }
        let rest = text::v_range(t, s, t.len());
        if let Some(e) = text::find_char(&rest, '>') {
            proof {
                text::lemma_index_of(rest@, '>');
                assert(rest@[0] == '<');
            }
            return Some(text::string_of_range(t, s + 1, s + e));
        }
    }
    let n = t.len();
    if let Some(s) = text::find_char(t, '"') {
        proof {
            text::lemma_index_of(t@, '"');
            assert(s < t@.len());
        }
        let rest = text::v_range(t, s + 1, n);
        if let Some(e) = text::find_char(&rest, '"') {
            proof {
                text::lemma_index_of(rest@, '"');
            }
            return Some(text::string_of_range(t, s + 1, s + 1 + e));
        }
    }
    None
}

/// The `service-desc` target of a `Link` header.
pub fn parse_service_desc_link(header: &str) -> (r: Option<String>)
    ensures
        opt_view(r) == service_desc_link(header@),
{
    let parts = text::split_exec(&text::chars_of(header), ',');
    let ghost all = text::split(header@, ',');
    let mut i: usize = 0;
    proof {
        assert(all.subrange(0, all.len() as int) =~= all);
    }
    while i < parts.len()
        invariant
            i <= parts.len() == all.len(),
            all == text::split(header@, ','),
            forall|k: int| 0 <= k < parts@.len() ==> #[trigger] parts@[k]@ == all[k],
            service_desc_of(all) == service_desc_of(all.subrange(i as int, all.len() as int)),
        decreases parts.len() - i,
    {
        proof {
            let rest = all.subrange(i as int, all.len() as int);
            assert(rest.drop_first() =~= all.subrange(i + 1, all.len() as int));
            assert(rest[0] == parts@[i as int]@);
        }
        let p = &parts[i];
        let (a, b) = text::trim_bounds(p, 0, p.len(), None);
        let t = text::v_range(p, a, b);
        proof {
            assert(p@.subrange(0, p@.len() as int) =~= p@);
        }
        let mentions = has(&t, "rel=\"service-desc") || has(&t, "rel=\"service-desc\"") || has(&t, "rel='service-desc'")
            || has(&t, "rel=service-desc");
        if mentions {
            if let Some(u) = link_target_exec(&t) {
                return Some(u);
            }
        }
        i = i + 1;
    }
    None
}

/// What the `url` crate makes of joining `rel` onto `base` (`None` when
/// `base` does not parse or the join fails).
pub uninterp spec fn url_joined(base: Seq<char>, rel: Seq<char>) -> Option<Seq<char>>;

/// Whether the `url` crate parses `base` as an absolute URL.
pub uninterp spec fn url_parses(base: Seq<char>) -> bool;

/// Why a join failed, with the `url` crate's message.
pub enum JoinFailure {
    /// The base did not parse.
    Base(String),
    /// The base parsed; joining the reference failed.
    Join(String),
}

/// `reqwest::Url::parse(base)`, then `join(rel)`, then the URL's text: the
/// `url` crate's result, named. An error says which step failed and carries
/// the crate's message, of which nothing is claimed.
#[verifier::external_body]
pub(crate) fn url_join(base: &str, rel: &str) -> (r: Result<String, JoinFailure>)
    ensures
        match r {
            Ok(u) => url_joined(base@, rel@) == Some(u@) && url_parses(base@),
            Err(JoinFailure::Base(_)) => url_joined(base@, rel@) is None && !url_parses(base@),
            Err(JoinFailure::Join(_)) => url_joined(base@, rel@) is None && url_parses(base@),
        },
{
    match reqwest::Url::parse(base) {
        Ok(b) => match b.join(rel) {
            Ok(u) => Ok(u.to_string()),
            Err(e) => Err(JoinFailure::Join(e.to_string())),
        },
        Err(e) => Err(JoinFailure::Base(e.to_string())),
    }
}

/// The joined URL, when the join succeeds.
fn url_join_opt(base: &str, rel: &str) -> (r: Option<String>)
    ensures
        opt_view(r) == url_joined(base@, rel@),
{
    match url_join(base, rel) {
        Ok(u) => Some(u),
        Err(_) => None,
    }
}

/// The well-known spec locations tried when no `service-desc` is given.
pub open spec fn well_known_paths() -> Seq<Seq<char>> {
    seq![
        "/openapi.json"@,
        "/openapi.yaml"@,
        "/swagger.json"@,
        "/swagger.yaml"@,
        "/api/openapi.json"@,
        "/.well-known/openapi"@,
    ]
}

/// Well-known location `k`.
fn well_known(k: usize) -> (r: &'static str)
    requires
        k < 6,
    ensures
        r@ == well_known_paths()[k as int],
{
    match k {
        0 => "/openapi.json",
        1 => "/openapi.yaml",
        2 => "/swagger.json",
        3 => "/swagger.yaml",
        4 => "/api/openapi.json",
        _ => "/.well-known/openapi",
    }
}

/// The first well-known location that joins onto `base`.
pub open spec fn guess_of(base: Seq<char>, paths: Seq<Seq<char>>) -> Option<Seq<char>>
    decreases paths.len(),
{
    if paths.len() == 0 {
        None
    } else {
        match url_joined(base, paths[0]) {
            Some(u) => Some(u),
            None => guess_of(base, paths.drop_first()),
        }
    }
}

/// The first well-known spec location under `base`.
pub fn guess_well_known(base: &str) -> (r: Option<String>)
    ensures
        opt_view(r) == guess_of(base@, well_known_paths()),
{
    let ghost paths = well_known_paths();
    let mut k: usize = 0;
    proof {
        assert(paths.subrange(0, 6) =~= paths);
    }
    while k < 6
        invariant
            k <= 6,
            paths == well_known_paths(),
            guess_of(base@, paths) == guess_of(base@, paths.subrange(k as int, 6)),
        decreases 6 - k,
    {
        proof {
            let rest = paths.subrange(k as int, 6);
            assert(rest.drop_first() =~= paths.subrange(k + 1, 6));
            assert(rest[0] == paths[k as int]);
        }
        if let Some(u) = url_join_opt(base, well_known(k)) {
            return Some(u);
        }
        k = k + 1;
    }
    proof {
        assert(paths.subrange(6, 6) =~= Seq::<Seq<char>>::empty());
    }
    None
}

/// A relative spec location made absolute against `base`; absolute
/// `http(s)` URLs stay as they are.
pub open spec fn absolute_of(base: Seq<char>, relative: Option<Seq<char>>) -> Option<Seq<char>> {
    match relative {
        None => None,
        Some(r) => if text::starts_with(r, "http://"@) || text::starts_with(r, "https://"@) {
            Some(r)
        } else {
            url_joined(base, r)
        },
    }
}

/// A spec location made absolute against `base`.
pub fn resolve_absolute_url(base: &str, relative: Option<String>) -> (r: Option<String>)
    ensures
        opt_view(r) == absolute_of(base@, opt_view(relative)),
{
    let rel = match relative {
        Some(r) => r,
        None => return None,
    };
    let rv = text::chars_of(rel.as_str());
    if text::starts_with_exec(&rv, &text::chars_of("http://")) || text::starts_with_exec(&rv, &text::chars_of("https://")) {
        Some(rel)
    } else {
        url_join_opt(base, rel.as_str())
    }
}

/// Where the spec of the API at `url` lives: the `service-desc` of its
/// `Link` header (when it sent one), else the first well-known location.
pub open spec fn spec_url_of(url: Seq<char>, link_header: Option<Seq<char>>) -> Option<Seq<char>> {
    match link_header {
        Some(h) => match service_desc_link(h) {
            Some(u) => Some(u),
            None => absolute_of(url, guess_of(url, well_known_paths())),
        },
        None => absolute_of(url, guess_of(url, well_known_paths())),
    }
}

/// The discovery message when no spec location can be found.
pub open spec fn not_found_message(url: Seq<char>) -> Seq<char> {
    "Could not discover spec from "@ + url
        + ". No Link: rel=service-desc header found and no well-known path guessed."@
}

/// Where the spec of the API at `url` lives, given its `Link` header.
pub fn discover_spec_url(url: &str, link_header: Option<&str>) -> (r: Result<String, SpallCliError>)
    ensures
        match r {
            Ok(u) => spec_url_of(url@, match link_header { Some(h) => Some(h@), None => None }) == Some(u@),
            Err(SpallCliError::Usage(m)) => spec_url_of(url@, match link_header { Some(h) => Some(h@), None => None }) is None
                && m@ == not_found_message(url@),
            Err(_) => false,
        },
{
    let found = match link_header {
        Some(h) => match parse_service_desc_link(h) {
            Some(u) => Some(u),
            None => resolve_absolute_url(url, guess_well_known(url)),
        },
        None => resolve_absolute_url(url, guess_well_known(url)),
    };
    match found {
        Some(u) => Ok(u),
        None => {
            let mut m = "Could not discover spec from ".to_owned();
            m.append(url);
            m.append(". No Link: rel=service-desc header found and no well-known path guessed.");
            Err(SpallCliError::Usage(m))
        },
    }
}


/// `s` without one leading `c`.
pub open spec fn strip_one_prefix(s: Seq<char>, c: char) -> Seq<char> {
    if s.len() > 0 && s[0] == c {
        s.drop_first()
    } else {
        s
    }
}

/// `s` without one trailing `c`.
pub open spec fn strip_one_suffix(s: Seq<char>, c: char) -> Seq<char> {
    if s.len() > 0 && s.last() == c {
        s.drop_last()
    } else {
        s
    }
}

/// A YAML scalar without one pair of surrounding double, then single, quotes.
pub open spec fn unquote(s: Seq<char>) -> Seq<char> {
    strip_one_suffix(strip_one_prefix(strip_one_suffix(strip_one_prefix(s, '"'), '"'), '\''), '\'')
}

/// The title on the first line (of some lines) that, trimmed, starts with
/// `title:`: the rest of it trimmed and unquoted.
pub open spec fn yaml_title_of(lines: Seq<Seq<char>>) -> Option<Seq<char>>
    decreases lines.len(),
{
    if lines.len() == 0 {
        None
    } else if text::starts_with(text::trim(lines[0]), "title:"@) {
        let t = text::trim(lines[0]);
        Some(unquote(text::trim(t.subrange(6, t.len() as int))))
    } else {
        yaml_title_of(lines.drop_first())
    }
}

/// A spec's title: `info.title` when the spec is JSON (no title when it
/// has no `info` or `info` has no `title`; a title that is not a string
/// falls back to the line scan), else the first `title:` line of its text.
/// A `\r` before a line break is whitespace that the trim drops, so
/// splitting at `\n` reads the same lines as `str::lines`.
pub open spec fn title_of(parsed: Option<JsonV>, text: Seq<char>) -> Option<Seq<char>> {
    let scan = yaml_title_of(text::split(text, '\n'));
    match parsed {
        Some(j) => match j.get("info"@) {
            None => None,
            Some(info) => match info.get("title"@) {
                None => None,
                Some(t) => match t.as_str() {
                    Some(s) => Some(s),
                    None => scan,
                },
            },
        },
        None => scan,
    }
}

/// What `String::from_utf8_lossy` makes of some bytes.
pub uninterp spec fn utf8_lossy_of(bytes: Seq<u8>) -> Seq<char>;

/// `String::from_utf8_lossy`: the text, named; on valid UTF-8 it is the
/// decoded text, as std documents.
#[verifier::external_body]
pub(crate) fn utf8_lossy(bytes: &[u8]) -> (r: String)
    ensures
        r@ == utf8_lossy_of(bytes@),
        vstd::utf8::valid_utf8(bytes@) ==> r@ == vstd::utf8::decode_utf8(bytes@),
{
    String::from_utf8_lossy(bytes).into_owned()
}

/// `s` without one leading and one trailing `c`.
fn unquote_exec(v: &Vec<char>) -> (r: Vec<char>)
    ensures
        r@ == unquote(v@),
{
    let mut a: usize = 0;
    let mut b: usize = v.len();
    if a < b && v[a] == '"' {
        a = a + 1;
    }
    proof {
        assert(v@.subrange(a as int, b as int) == strip_one_prefix(v@, '"'));
    }
    if a < b && v[b - 1] == '"' {
        b = b - 1;
    }
    proof {
        assert(v@.subrange(a as int, b as int) == strip_one_suffix(strip_one_prefix(v@, '"'), '"'));
    }
    if a < b && v[a] == '\'' {
        a = a + 1;
    }
    proof {
        assert(v@.subrange(a as int, b as int)
            == strip_one_prefix(strip_one_suffix(strip_one_prefix(v@, '"'), '"'), '\''));
    }
    if a < b && v[b - 1] == '\'' {
        b = b - 1;
    }
    text::v_range(v, a, b)
}

/// The title on the first `title:` line.
fn yaml_title(text: &str) -> (r: Option<String>)
    ensures
        opt_view(r) == yaml_title_of(text::split(text@, '\n')),
{
    let lines = text::split_exec(&text::chars_of(text), '\n');
    let ghost all = text::split(text@, '\n');
    let mut i: usize = 0;
    proof {
        assert(all.subrange(0, all.len() as int) =~= all);
    }
    while i < lines.len()
        invariant
            i <= lines.len() == all.len(),
            all == text::split(text@, '\n'),
            forall|k: int| 0 <= k < lines@.len() ==> #[trigger] lines@[k]@ == all[k],
            yaml_title_of(all) == yaml_title_of(all.subrange(i as int, all.len() as int)),
        decreases lines.len() - i,
    {
        proof {
            let rest = all.subrange(i as int, all.len() as int);
            assert(rest.drop_first() =~= all.subrange(i + 1, all.len() as int));
            assert(rest[0] == lines@[i as int]@);
        }
        let l = &lines[i];
        let (a, b) = text::trim_bounds(l, 0, l.len(), None);
        proof {
            assert(l@.subrange(0, l@.len() as int) =~= l@);
        }
        let t = text::v_range(l, a, b);
        if text::starts_with_exec(&t, &text::chars_of("title:")) {
            proof {
                reveal_strlit("title:");
            }
            let (c, d) = text::trim_bounds(&t, 6, t.len(), None);
            let rest = text::v_range(&t, c, d);
            let u = unquote_exec(&rest);
            return Some(text::string_of(&u));
        }
        i = i + 1;
    }
    None
}

/// A spec's title (see `title_of`): `parsed` is the spec as JSON when it
/// parses as JSON.
pub fn extract_title(spec_bytes: &[u8], parsed: Option<&Json>) -> (r: Option<String>)
    ensures
        opt_view(r) == title_of(match parsed { Some(j) => Some(j@), None => None }, utf8_lossy_of(spec_bytes@)),
{
    if let Some(j) = parsed {
        match j.get("info") {
            None => return None,
            Some(info) => match info.get("title") {
                None => return None,
                Some(t) => match t.as_str() {
                    Some(s) => return Some(s.clone()),
                    None => {},
                },
            },
        }
    }
    let text = utf8_lossy(spec_bytes);
    yaml_title(text.as_str())
}

/// `s` with all leading repetitions of `p` removed.
pub open spec fn strip_all(s: Seq<char>, p: Seq<char>) -> Seq<char>
    decreases s.len(),
{
    if p.len() > 0 && text::starts_with(s, p) {
        strip_all(s.subrange(p.len() as int, s.len() as int), p)
    } else {
        s
    }
}

/// `s` up to its first `c`.
pub open spec fn before_char(s: Seq<char>, c: char) -> Seq<char> {
    match text::index_of(s, c) {
        Some(k) => s.subrange(0, k),
        None => s,
    }
}

/// The name a URL suggests: its host, without scheme, path or port.
pub open spec fn default_name(url: Seq<char>) -> Seq<char> {
    before_char(before_char(strip_all(strip_all(url, "https://"@), "http://"@), '/'), ':')
}

/// `v[from..]` with all leading repetitions of `p` removed, as bounds.
fn strip_all_from(v: &Vec<char>, from: usize, p: &Vec<char>) -> (r: usize)
    requires
        from <= v.len(),
        p.len() > 0,
    ensures
        from <= r <= v.len(),
        v@.subrange(r as int, v@.len() as int) == strip_all(v@.subrange(from as int, v@.len() as int), p@),
{
    let mut a = from;
    while text::occurs_at_exec(v, p, a)
        invariant
            from <= a <= v.len(),
            p@.len() > 0,
            strip_all(v@.subrange(from as int, v@.len() as int), p@) == strip_all(v@.subrange(a as int, v@.len() as int), p@),
        decreases v.len() - a,
    {
        proof {
            let s = v@.subrange(a as int, v@.len() as int);
            assert(s.subrange(0, p@.len() as int) =~= v@.subrange(a as int, a + p@.len()));
            assert(s.subrange(p@.len() as int, s.len() as int) =~= v@.subrange(a + p@.len(), v@.len() as int));
        }
        a = a + p.len();
    }
    proof {
        let s = v@.subrange(a as int, v@.len() as int);
        if text::starts_with(s, p@) {
            assert(s.subrange(0, p@.len() as int) =~= v@.subrange(a as int, a + p@.len()));
        }
    }
    a
}

/// The part of `v` before its first `c`.
fn before_char_exec(v: &Vec<char>, c: char) -> (r: Vec<char>)
    ensures
        r@ == before_char(v@, c),
{
    match text::find_char(v, c) {
        Some(k) => {
            proof {
                text::lemma_index_of(v@, c);
            }
            text::v_range(v, 0, k)
        },
        None => text::v_range(v, 0, v.len()),
    }
}

/// The name a URL suggests (see `default_name`).
pub fn default_name_from_url(url: &str) -> (r: String)
    ensures
        r@ == default_name(url@),
{
    let v = text::chars_of(url);
    proof {
        reveal_strlit("https://");
        reveal_strlit("http://");
    }
    let a = strip_all_from(&v, 0, &text::chars_of("https://"));
    let b = strip_all_from(&v, a, &text::chars_of("http://"));
    proof {
        assert(v@.subrange(0, v@.len() as int) =~= v@);
    }
    let rest = text::v_range(&v, b, v.len());
    let host = before_char_exec(&rest, '/');
    let name = before_char_exec(&host, ':');
    text::string_of(&name)
}

/// Whether a character is alphanumeric in Unicode's sense, as
/// `char::is_alphanumeric` says.
pub uninterp spec fn unicode_alphanumeric(c: char) -> bool;

/// `char::is_alphanumeric`: the answer, named; on ASCII it accepts exactly
/// the letters and digits.
#[verifier::external_body]
fn is_alphanumeric(c: char) -> (b: bool)
    ensures
        b == unicode_alphanumeric(c),
        (c as u32) < 128 ==> (b == crate::auth::is_alnum(c)),
{
    c.is_alphanumeric()
}

/// A slug character: alphanumerics, `-` and `_` stay, the rest become `-`.
pub open spec fn slug_char(c: char) -> char {
    if unicode_alphanumeric(c) || c == '-' || c == '_' {
        c
    } else {
        '-'
    }
}

/// `str::replace` of each non-overlapping `cc` (left to right) by `-`.
pub open spec fn collapse(s: Seq<char>, c: char) -> Seq<char>
    decreases s.len(),
{
    if s.len() >= 2 && s[0] == c && s[1] == c {
        seq!['-'] + collapse(s.subrange(2, s.len() as int), c)
    } else if s.len() == 0 {
        seq![]
    } else {
        seq![s[0]] + collapse(s.drop_first(), c)
    }
}

/// The slug of a title: ASCII-lowercased, other characters than
/// alphanumerics, `-` and `_` turned into `-`, `__` then `--` collapsed to
/// `-`, and `-` trimmed from both ends.
pub open spec fn slug(s: Seq<char>) -> Seq<char> {
    text::trim_char(
        collapse(collapse(text::lower(s).map_values(|c: char| slug_char(c)), '_'), '-'),
        '-',
    )
}

/// `v` with each non-overlapping `cc` replaced by `-`.
fn collapse_exec(v: &Vec<char>, c: char) -> (r: Vec<char>)
    ensures
        r@ == collapse(v@, c),
{
    let mut out: Vec<char> = Vec::new();
    let mut i: usize = 0;
    proof {
        assert(v@.subrange(0, v@.len() as int) =~= v@);
    }
    while i < v.len()
        invariant
            i <= v.len(),
            collapse(v@, c) == out@ + collapse(v@.subrange(i as int, v@.len() as int), c),
        decreases v.len() - i,
    {
        let ghost s = v@.subrange(i as int, v@.len() as int);
        if i + 1 < v.len() && v[i] == c && v[i + 1] == c {
            proof {
                assert(s.subrange(2, s.len() as int) =~= v@.subrange(i + 2, v@.len() as int));
                assert(out@ + collapse(s, c) == out@.push('-') + collapse(v@.subrange(i + 2, v@.len() as int), c));
            }
            out.push('-');
            i = i + 2;
        } else {
            proof {
                assert(s.drop_first() =~= v@.subrange(i + 1, v@.len() as int));
                assert(out@ + collapse(s, c) =~= out@.push(v@[i as int]) + collapse(v@.subrange(i + 1, v@.len() as int), c));
            }
            out.push(v[i]);
            i = i + 1;
        }
    }
    proof {
        assert(collapse(v@.subrange(i as int, v@.len() as int), c) =~= Seq::<char>::empty());
    }
    out
}

/// The slug of a title (see `slug`).
pub fn slugify(s: &str) -> (r: String)
    ensures
        r@ == slug(s@),
{
    let low = text::lower_vec(&text::chars_of(s));
    let mut mapped: Vec<char> = Vec::new();
    let mut i: usize = 0;
    while i < low.len()
        invariant
            i <= low.len(),
            mapped@ =~= low@.subrange(0, i as int).map_values(|c: char| slug_char(c)),
        decreases low.len() - i,
    {
        let c = low[i];
        let keep = is_alphanumeric(c) || c == '-' || c == '_';
        mapped.push(if keep { c } else { '-' });
        i = i + 1;
        proof {
            assert(mapped@ =~= low@.subrange(0, i as int).map_values(|c: char| slug_char(c)));
        }
    }
    proof {
        assert(low@.subrange(0, low@.len() as int) =~= low@);
    }
    let a = collapse_exec(&mapped, '_');
    let b = collapse_exec(&a, '-');
    let (x, y) = text::trim_bounds(&b, 0, b.len(), Some('-'));
    proof {
        assert(b@.subrange(0, b@.len() as int) =~= b@);
    }
    text::string_of_range(&b, x, y)
}

/// The API found at `url` with its spec at `spec_url`: titled by the spec
/// (read as JSON when it is, else as text; named after the URL's host when
/// the spec has no title), and named by the title's slug.
pub fn discovered_api(url: &str, spec_url: String, spec_bytes: &[u8]) -> (r: DiscoveredApi)
    ensures
        r.spec_url@ == spec_url@,
        r.title@ == match title_of(match crate::json::json_parsed_bytes(spec_bytes@) {
            Ok(j) => Some(j),
            Err(_) => None,
        }, utf8_lossy_of(spec_bytes@)) {
            Some(t) => t,
            None => default_name(url@),
        },
        r.name@ == slug(r.title@),
{
    let parsed = crate::json::parse_json_bytes(spec_bytes);
    let title = match extract_title(spec_bytes, parsed.as_ref().ok()) {
        Some(t) => t,
        None => default_name_from_url(url),
    };
    let name = slugify(title.as_str());
    DiscoveredApi { name, title, spec_url }
}

} // verus!
