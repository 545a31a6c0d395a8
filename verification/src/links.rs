//! Hypermedia link extraction from API responses.
//!
//! Four formats are read:
//!
//! - the RFC 5988 `Link` header — `<https://api/x?page=2>; rel="next"`
//! - HAL — `{"_links": {"next": {"href": "..."}}}`
//! - JSON:API — `{"links": {"next": "..."}}` (string or `{href}` object)
//! - Siren — `{"links": [{"rel": ["next"], "href": "..."}]}`
//!
//! JSON:API and Siren both use a bare `links` key and are told apart by
//! shape (object against array).

use vstd::prelude::*;
use crate::json::{Json, JsonV};
use crate::text;
use crate::json;

verus! {

broadcast use crate::json::lemma_jv_items, crate::json::lemma_jv_members;

/// `(rel, href)` pairs as character sequences.
pub type LinkSeq = Seq<(Seq<char>, Seq<char>)>;

/// What a `;`-separated segment of a link value contributes to the pair
/// `(url, rel)` read so far: `<...>` sets the URL, `rel=...` the relation.
pub open spec fn segment_step(
    st: (Option<Seq<char>>, Option<Seq<char>>),
    seg: Seq<char>,
) -> (Option<Seq<char>>, Option<Seq<char>>) {
    let t = text::trim(seg);
    if t.len() >= 2 && t[0] == '<' && t.last() == '>' {
        (Some(t.subrange(1, t.len() - 1)), st.1)
    } else if text::starts_with(t, seq!['r', 'e', 'l', '=']) {
        (st.0, Some(text::trim_char(text::trim(t.subrange(4, t.len() as int)), '"')))
    } else {
        st
    }
}

/// The `(url, rel)` read from a run of segments; later segments win.
pub open spec fn segments_read(segs: Seq<Seq<char>>) -> (Option<Seq<char>>, Option<Seq<char>>)
    decreases segs.len(),
{
    if segs.len() == 0 {
        (None, None)
    } else {
        segment_step(segments_read(segs.drop_last()), segs.last())
    }
}

/// The pairs contributed by comma-separated link values: one `(rel, url)`
/// for each value that has both.
pub open spec fn parts_read(parts: Seq<Seq<char>>) -> LinkSeq
    decreases parts.len(),
{
    if parts.len() == 0 {
        seq![]
    } else {
        let prev = parts_read(parts.drop_last());
        match segments_read(text::split(parts.last(), ';')) {
            (Some(u), Some(r)) => prev.push((r, u)),
            _ => prev,
        }
    }
}

/// The `(rel, url)` pairs of an RFC 5988 `Link` header value.
pub open spec fn rfc5988(link: Seq<char>) -> LinkSeq {
    parts_read(text::split(link, ','))
}

/// Reads the `(url, rel)` of one comma-separated link value.
fn read_segments(part: &Vec<char>) -> (r: (Option<Vec<char>>, Option<Vec<char>>))
    ensures
        r.0 matches Some(u) ==> segments_read(text::split(part@, ';')).0 == Some(u@),
        r.0 is None ==> segments_read(text::split(part@, ';')).0 is None,
        r.1 matches Some(x) ==> segments_read(text::split(part@, ';')).1 == Some(x@),
        r.1 is None ==> segments_read(text::split(part@, ';')).1 is None,
{
    let segs = text::split_exec(part, ';');
    let ghost sv = text::split(part@, ';');
    let mut url: Option<Vec<char>> = None;
    let mut rel: Option<Vec<char>> = None;
    let mut i: usize = 0;
    let rel_prefix = vec!['r', 'e', 'l', '='];
    while i < segs.len()
        invariant
            i <= segs.len() == sv.len(),
            rel_prefix@ == seq!['r', 'e', 'l', '='],
            forall|k: int| 0 <= k < segs@.len() ==> #[trigger] segs@[k]@ == sv[k],
            ({
                let st = segments_read(sv.subrange(0, i as int));
                &&& (url matches Some(u) ==> st.0 == Some(u@))
                &&& (url is None ==> st.0 is None)
                &&& (rel matches Some(x) ==> st.1 == Some(x@))
                &&& (rel is None ==> st.1 is None)
            }),
        decreases segs.len() - i,
    {
        let seg = &segs[i];
        let (a, b) = text::trim_bounds(seg, 0, seg.len(), None);
        let t = text::v_range(seg, a, b);
        proof {
            assert(seg@.subrange(0, seg@.len() as int) =~= seg@);
            assert(sv.subrange(0, i + 1).drop_last() =~= sv.subrange(0, i as int));
            assert(sv.subrange(0, i + 1).last() == sv[i as int]);
        }
        if t.len() >= 2 && t[0] == '<' && t[t.len() - 1] == '>' {
            url = Some(text::v_range(&t, 1, t.len() - 1));
        } else if text::starts_with_exec(&t, &rel_prefix) {
            let (c, d) = text::trim_bounds(&t, 4, t.len(), None);
            let (e, f) = text::trim_bounds(&t, c, d, Some('"'));
            proof {
                assert(t@.subrange(c as int, d as int).subrange(e - c, f - c) =~= t@.subrange(e as int, f as int));
                assert(t@.subrange(c as int, d as int) == text::trim(t@.subrange(4, t@.len() as int)));
            }
            rel = Some(text::v_range(&t, e, f));
        }
        i = i + 1;
    }
    proof {
        assert(sv.subrange(0, sv.len() as int) =~= sv);
    }
    (url, rel)
}

/// Parse an RFC 5988 `Link` header value into `(rel, href)` pairs.
///
/// Example: `<https://api.example.com?page=2>; rel="next", <…>; rel="prev"`.
pub fn parse_rfc5988(link: &str) -> (r: Vec<(String, String)>)
    ensures
        r@.len() == rfc5988(link@).len(),
        forall|i: int| 0 <= i < r@.len() ==> (#[trigger] r@[i]).0@ == rfc5988(link@)[i].0
            && r@[i].1@ == rfc5988(link@)[i].1,
{
    let v = text::chars_of(link);
    let parts = text::split_exec(&v, ',');
    let ghost pv = text::split(v@, ',');
    let mut out: Vec<(String, String)> = Vec::new();
    let mut i: usize = 0;
    while i < parts.len()
        invariant
            i <= parts.len() == pv.len(),
            forall|k: int| 0 <= k < parts@.len() ==> #[trigger] parts@[k]@ == pv[k],
            out@.len() == parts_read(pv.subrange(0, i as int)).len(),
            forall|k: int| 0 <= k < out@.len() ==> (#[trigger] out@[k]).0@ == parts_read(pv.subrange(0, i as int))[k].0
                && out@[k].1@ == parts_read(pv.subrange(0, i as int))[k].1,
        decreases parts.len() - i,
    {
        let (u, r) = read_segments(&parts[i]);
        proof {
            assert(pv.subrange(0, i + 1).drop_last() =~= pv.subrange(0, i as int));
            assert(pv.subrange(0, i + 1).last() == pv[i as int]);
        }
        match (u, r) {
            (Some(u), Some(r)) => {
                out.push((text::string_of(&r), text::string_of(&u)));
            }
            _ => {}
        }
        i = i + 1;
    }
    proof {
        assert(pv.subrange(0, pv.len() as int) =~= pv);
    }
    out
}

/// A single hypermedia link.
pub struct Link {
    pub rel: String,
    pub href: String,
}

/// Links extracted from a response's headers and body, in discovery order.
///
/// Several links may share a `rel`; lookups return the first of them.
pub struct Links {
    links: Vec<Link>,
}

/// The literal key `href`.
pub open spec fn href_key() -> Seq<char> {
    seq!['h', 'r', 'e', 'f']
}

/// The string under `href`, when `j` is an object that has one.
pub open spec fn href_of(j: JsonV) -> Option<Seq<char>> {
    match j.get(href_key()) {
        Some(JsonV::Str(h)) => Some(h),
        _ => None,
    }
}

/// HAL: the links listed for `rel` in an array value.
pub open spec fn hal_items(rel: Seq<char>, items: Seq<JsonV>) -> LinkSeq
    decreases items.len(),
{
    if items.len() == 0 {
        seq![]
    } else {
        let prev = hal_items(rel, items.drop_last());
        match href_of(items.last()) {
            Some(h) => prev.push((rel, h)),
            None => prev,
        }
    }
}

/// HAL: the links of one `_links` member.
pub open spec fn hal_member(rel: Seq<char>, val: JsonV) -> LinkSeq {
    match val {
        JsonV::Object(_) => match href_of(val) {
            Some(h) => seq![(rel, h)],
            None => seq![],
        },
        JsonV::Array(a) => hal_items(rel, a),
        _ => seq![],
    }
}

/// HAL: the links of all `_links` members, in member order.
pub open spec fn hal_members(m: Seq<(Seq<char>, JsonV)>) -> LinkSeq
    decreases m.len(),
{
    if m.len() == 0 {
        seq![]
    } else {
        hal_members(m.drop_last()) + hal_member(m.last().0, m.last().1)
    }
}

/// HAL links of a body: `{"_links": {rel: {href} | [{href}, ...]}}`.
pub open spec fn hal(body: JsonV) -> LinkSeq {
    match body.get(seq!['_', 'l', 'i', 'n', 'k', 's']) {
        Some(JsonV::Object(m)) => hal_members(m),
        _ => seq![],
    }
}

/// JSON:API: the link of one `links` member (a string or an `{href}` object).
pub open spec fn jsonapi_member(rel: Seq<char>, val: JsonV) -> LinkSeq {
    match val {
        JsonV::Str(s) => seq![(rel, s)],
        JsonV::Object(_) => match href_of(val) {
            Some(h) => seq![(rel, h)],
            None => seq![],
        },
        _ => seq![],
    }
}

/// JSON:API: the links of all `links` members.
pub open spec fn jsonapi_members(m: Seq<(Seq<char>, JsonV)>) -> LinkSeq
    decreases m.len(),
{
    if m.len() == 0 {
        seq![]
    } else {
        jsonapi_members(m.drop_last()) + jsonapi_member(m.last().0, m.last().1)
    }
}

/// Siren: one link per string in an entry's `rel` array.
pub open spec fn siren_rels(href: Seq<char>, rels: Seq<JsonV>) -> LinkSeq
    decreases rels.len(),
{
    if rels.len() == 0 {
        seq![]
    } else {
        let prev = siren_rels(href, rels.drop_last());
        match rels.last() {
            JsonV::Str(r) => prev.push((r, href)),
            _ => prev,
        }
    }
}

/// Siren: the links of one `links` entry (needs both `href` and a `rel` array).
pub open spec fn siren_entry(entry: JsonV) -> LinkSeq {
    match (href_of(entry), entry.get(seq!['r', 'e', 'l'])) {
        (Some(h), Some(JsonV::Array(rs))) => siren_rels(h, rs),
        _ => seq![],
    }
}

/// Siren: the links of all entries.
pub open spec fn siren_entries(a: Seq<JsonV>) -> LinkSeq
    decreases a.len(),
{
    if a.len() == 0 {
        seq![]
    } else {
        siren_entries(a.drop_last()) + siren_entry(a.last())
    }
}

/// JSON:API links (object form) or Siren links (array form) of a body.
pub open spec fn jsonapi_or_siren(body: JsonV) -> LinkSeq {
    match body.get(seq!['l', 'i', 'n', 'k', 's']) {
        Some(JsonV::Object(m)) => jsonapi_members(m),
        Some(JsonV::Array(a)) => siren_entries(a),
        _ => seq![],
    }
}

/// Every link a response carries: the `Link` header first, then HAL, then
/// JSON:API or Siren.
pub open spec fn response_links(link_header: Option<Seq<char>>, body: Option<JsonV>) -> LinkSeq {
    let h = match link_header {
        Some(l) => rfc5988(l),
        None => seq![],
    };
    match body {
        Some(b) => h + hal(b) + jsonapi_or_siren(b),
        None => h,
    }
}

/// Index of the first link in `s` whose rel is `name`.
pub open spec fn first_rel(s: LinkSeq, name: Seq<char>) -> Option<int>
    decreases s.len(),
{
    if s.len() == 0 {
        None
    } else if s[0].0 == name {
        Some(0)
    } else {
        match first_rel(s.drop_first(), name) {
            Some(k) => Some(k + 1),
            None => None,
        }
    }
}

/// `first_rel` returns an index in range holding `name`, with none earlier.
pub proof fn lemma_first_rel(s: LinkSeq, name: Seq<char>)
    ensures
        first_rel(s, name) matches Some(k) ==> 0 <= k < s.len() && s[k].0 == name
            && forall|j: int| 0 <= j < k ==> s[j].0 != name,
        first_rel(s, name) is None ==> forall|j: int| 0 <= j < s.len() ==> s[j].0 != name,
    decreases s.len(),
{
    if s.len() > 0 && s[0].0 != name {
        lemma_first_rel(s.drop_first(), name);
        assert forall|j: int| 1 <= j < s.len() implies s[j] == s.drop_first()[j - 1] by {}
    }
}

impl Links {
    /// The links as `(rel, href)` pairs in discovery order.
    pub closed spec fn view(&self) -> LinkSeq {
        self.links@.map_values(|l: Link| (l.rel@, l.href@))
    }

    /// No links.
    pub fn new() -> (r: Links)
        ensures
            r.view() == Seq::<(Seq<char>, Seq<char>)>::empty(),
    {
        let r = Links { links: Vec::new() };
        proof {
            assert(r.view() =~= Seq::<(Seq<char>, Seq<char>)>::empty());
        }
        r
    }

    /// Build a `Links` from the response's `Link` header value (if any) and
    /// an optional JSON body.
    pub fn from_response(link_header: Option<&str>, body: Option<&Json>) -> (r: Links)
        ensures
            r.view() == response_links(
                match link_header { Some(l) => Some(l@), None => None },
                match body { Some(b) => Some(b@), None => None },
            ),
    {
        let mut links = Links::new();
        links.absorb_link_header(link_header);
        match body {
            Some(v) => {
                links.absorb_hal(v);
                links.absorb_jsonapi_or_siren(v);
                proof {
                    let h = match link_header { Some(l) => rfc5988(l@), None => seq![] };
                    assert(links.view() =~= h + hal(v@) + jsonapi_or_siren(v@));
                }
            }
            None => {}
        }
        links
    }

    /// Return the first link with the given `rel`, if any.
    pub fn rel(&self, name: &str) -> (r: Option<&Link>)
        ensures
            r is None <==> first_rel(self.view(), name@) is None,
            r matches Some(l) ==> first_rel(self.view(), name@) matches Some(k)
                && self.view()[k] == (l.rel@, l.href@),
    {
        let mut i: usize = 0;
        proof {
            lemma_first_rel(self.view(), name@);
        }
        while i < self.links.len()
            invariant
                i <= self.links.len(),
                self.view().len() == self.links@.len(),
                forall|j: int| 0 <= j < self.links@.len() ==> #[trigger] self.view()[j] == (self.links@[j].rel@, self.links@[j].href@),
                forall|j: int| 0 <= j < i ==> self.view()[j].0 != name@,
                first_rel(self.view(), name@) matches Some(k) ==> 0 <= k < self.view().len() && self.view()[k].0 == name@
                    && forall|j: int| 0 <= j < k ==> self.view()[j].0 != name@,
                first_rel(self.view(), name@) is None ==> forall|j: int| 0 <= j < self.view().len() ==> self.view()[j].0 != name@,
            decreases self.links.len() - i,
        {
            if crate::json::str_eq(self.links[i].rel.as_str(), name) {
                proof {
                    assert(self.view()[i as int].0 == name@);
                    if let Some(k) = first_rel(self.view(), name@) {
                        if k < i {
                        } else if k > i {
                        }
                    }
                }
                return Some(&self.links[i]);
            }
            i = i + 1;
        }
        None
    }

    /// All `rel` names that were discovered, sorted and without repeats.
    pub fn rels(&self) -> (r: Vec<String>)
        ensures
            crate::order::strictly_sorted(crate::order::views(r@)),
            forall|x: Seq<char>| crate::order::views(r@).contains(x) <==> exists|j: int| 0 <= j < self.view().len() && #[trigger] self.view()[j].0 == x,
    {
        let mut r: Vec<String> = Vec::new();
        let mut i: usize = 0;
        while i < self.links.len()
            invariant
                i <= self.links.len(),
                self.view().len() == self.links@.len(),
                forall|j: int| 0 <= j < self.links@.len() ==> #[trigger] self.view()[j] == (self.links@[j].rel@, self.links@[j].href@),
                crate::order::strictly_sorted(crate::order::views(r@)),
                forall|x: Seq<char>| crate::order::views(r@).contains(x) <==> exists|j: int| 0 <= j < i && #[trigger] self.view()[j].0 == x,
            decreases self.links.len() - i,
        {
            let name = text::string_of(&text::chars_of(self.links[i].rel.as_str()));
            crate::order::insert_sorted(&mut r, name);
            proof {
                assert forall|x: Seq<char>| crate::order::views(r@).contains(x) <==> exists|j: int| 0 <= j < i + 1 && #[trigger] self.view()[j].0 == x by {
                    if x == self.view()[i as int].0 {
                        assert(self.view()[i as int].0 == x);
                    }
                    if exists|j: int| 0 <= j < i + 1 && #[trigger] self.view()[j].0 == x {
                        let j = choose|j: int| 0 <= j < i + 1 && #[trigger] self.view()[j].0 == x;
                        if j < i {
                        }
                    }
                }
            }
            i = i + 1;
        }
        r
    }

    /// Total number of links across all rels.
    pub fn len(&self) -> (n: usize)
        ensures
            n == self.view().len(),
    {
        self.links.len()
    }

    /// True when no links were discovered.
    pub fn is_empty(&self) -> (b: bool)
        ensures
            b == (self.view().len() == 0),
    {
        self.links.len() == 0
    }

    /// Appends one link.
    pub fn push(&mut self, link: Link)
        ensures
            final(self).view() == old(self).view().push((link.rel@, link.href@)),
    {
        self.links.push(link);
        proof {
            assert(self.view() =~= old(self).view().push((link.rel@, link.href@)));
        }
    }

    /// Appends a run of `(rel, href)` pairs.
    fn push_pairs(&mut self, pairs: &Vec<(String, String)>)
        ensures
            final(self).view() == old(self).view() + pairs@.map_values(|p: (String, String)| (p.0@, p.1@)),
    {
        let ghost start = self.view();
        let ghost pv = pairs@.map_values(|p: (String, String)| (p.0@, p.1@));
        let mut i: usize = 0;
        while i < pairs.len()
            invariant
                i <= pairs.len() == pv.len(),
                pv == pairs@.map_values(|p: (String, String)| (p.0@, p.1@)),
                self.view() == start + pv.subrange(0, i as int),
            decreases pairs.len() - i,
        {
            let rel = text::string_of(&text::chars_of(pairs[i].0.as_str()));
            let href = text::string_of(&text::chars_of(pairs[i].1.as_str()));
            proof {
                assert(pv.subrange(0, i + 1) =~= pv.subrange(0, i as int).push(pv[i as int]));
            }
            self.push(Link { rel, href });
            i = i + 1;
        }
        proof {
            assert(pv.subrange(0, i as int) =~= pv);
        }
    }

    /// Adds the links of a `Link` header value.
    fn absorb_link_header(&mut self, header: Option<&str>)
        ensures
            final(self).view() == old(self).view() + match header { Some(l) => rfc5988(l@), None => seq![] },
    {
        match header {
            Some(h) => {
                let pairs = parse_rfc5988(h);
                proof {
                    assert(pairs@.map_values(|p: (String, String)| (p.0@, p.1@)) =~= rfc5988(h@));
                }
                self.push_pairs(&pairs);
            }
            None => {
                proof {
                    assert(self.view() + Seq::<(Seq<char>, Seq<char>)>::empty() =~= self.view());
                }
            }
        }
    }

    /// Adds the HAL links of a body.
    fn absorb_hal(&mut self, body: &Json)
        ensures
            final(self).view() == old(self).view() + hal(body@),
    {
        proof {
            reveal_strlit("_links");
            reveal_strlit("href");
        }
        let ghost start = self.view();
        let lk = body.get("_links");
        proof {
            assert("_links"@ =~= seq!['_', 'l', 'i', 'n', 'k', 's']);
            assert("href"@ =~= href_key());
        }
        match lk {
            Some(Json::Object(m)) => {
                let mut i: usize = 0;
                while i < m.len()
                    invariant
                        i <= m.len(),
                        self.view() == start + hal_members(json::members_view(m@).subrange(0, i as int)),
                        "href"@ == href_key(),
                    decreases m.len() - i,
                {
                    let ghost before = self.view();
                    let rel = &m[i].0;
                    match &m[i].1 {
                        Json::Object(_) => {
                            match m[i].1.get("href") {
                                Some(Json::Str(h)) => {
                                    self.push(Link { rel: text::string_of(&text::chars_of(rel.as_str())), href: text::string_of(&text::chars_of(h.as_str())) });
                                }
                                _ => {}
                            }
                        }
                        Json::Array(items) => {
                            let mut k: usize = 0;
                            while k < items.len()
                                invariant
                                    k <= items.len(),
                                    self.view() == before + hal_items(rel@, json::items_view(items@).subrange(0, k as int)),
                                    "href"@ == href_key(),
                                decreases items.len() - k,
                            {
                                proof {
                                    assert(json::items_view(items@).subrange(0, k + 1).drop_last() =~= json::items_view(items@).subrange(0, k as int));
                                    json::lemma_jv_items(items@);
                                    assert(json::items_view(items@)[k as int] == items@[k as int]@);
                                    assert(json::items_view(items@).subrange(0, k + 1).last() == items@[k as int]@);
                                }
                                match items[k].get("href") {
                                    Some(Json::Str(h)) => {
                                        self.push(Link { rel: text::string_of(&text::chars_of(rel.as_str())), href: text::string_of(&text::chars_of(h.as_str())) });
                                    }
                                    _ => {}
                                }
                                k = k + 1;
                            }
                            proof {
                                assert(json::items_view(items@).subrange(0, items@.len() as int) =~= json::items_view(items@));
                            }
                        }
                        _ => {}
                    }
                    proof {
                        json::lemma_jv_members(m@);
                        assert(json::members_view(m@).subrange(0, i + 1).drop_last() =~= json::members_view(m@).subrange(0, i as int));
                        assert(json::members_view(m@).subrange(0, i + 1).last() == (m@[i as int].0@, m@[i as int].1@));
                        assert(self.view() =~= before + hal_member(m@[i as int].0@, m@[i as int].1@));
                    }
                    i = i + 1;
                }
                proof {
                    assert(json::members_view(m@).subrange(0, m@.len() as int) =~= json::members_view(m@));
                }
            }
            _ => {
                proof {
                    assert(self.view() + Seq::<(Seq<char>, Seq<char>)>::empty() =~= self.view());
                    if let Some(v) = lk {
                        assert(body@.get(seq!['_', 'l', 'i', 'n', 'k', 's']) == Some(v@));
                    }
                }
            }
        }
    }

    /// Adds the JSON:API (object) or Siren (array) links of a body.
    fn absorb_jsonapi_or_siren(&mut self, body: &Json)
        ensures
            final(self).view() == old(self).view() + jsonapi_or_siren(body@),
    {
        proof {
            reveal_strlit("links");
            reveal_strlit("href");
            reveal_strlit("rel");
        }
        let ghost start = self.view();
        let lk = body.get("links");
        proof {
            assert("links"@ =~= seq!['l', 'i', 'n', 'k', 's']);
            assert("href"@ =~= href_key());
            assert("rel"@ =~= seq!['r', 'e', 'l']);
        }
        match lk {
            Some(Json::Object(m)) => {
                let mut i: usize = 0;
                while i < m.len()
                    invariant
                        i <= m.len(),
                        self.view() == start + jsonapi_members(json::members_view(m@).subrange(0, i as int)),
                        "href"@ == href_key(),
                    decreases m.len() - i,
                {
                    let ghost before = self.view();
                    let rel = &m[i].0;
                    match &m[i].1 {
                        Json::Str(s) => {
                            self.push(Link { rel: text::string_of(&text::chars_of(rel.as_str())), href: text::string_of(&text::chars_of(s.as_str())) });
                        }
                        Json::Object(_) => {
                            match m[i].1.get("href") {
                                Some(Json::Str(h)) => {
                                    self.push(Link { rel: text::string_of(&text::chars_of(rel.as_str())), href: text::string_of(&text::chars_of(h.as_str())) });
                                }
                                _ => {}
                            }
                        }
                        _ => {}
                    }
                    proof {
                        json::lemma_jv_members(m@);
                        assert(json::members_view(m@).subrange(0, i + 1).drop_last() =~= json::members_view(m@).subrange(0, i as int));
                        assert(json::members_view(m@).subrange(0, i + 1).last() == (m@[i as int].0@, m@[i as int].1@));
                        assert(self.view() =~= before + jsonapi_member(m@[i as int].0@, m@[i as int].1@));
                    }
                    i = i + 1;
                }
                proof {
                    assert(json::members_view(m@).subrange(0, m@.len() as int) =~= json::members_view(m@));
                }
            }
            Some(Json::Array(a)) => {
                let mut i: usize = 0;
                while i < a.len()
                    invariant
                        i <= a.len(),
                        self.view() == start + siren_entries(json::items_view(a@).subrange(0, i as int)),
                        "href"@ == href_key(),
                        "rel"@ == seq!['r', 'e', 'l'],
                    decreases a.len() - i,
                {
                    let ghost before = self.view();
                    match (a[i].get("href"), a[i].get("rel")) {
                        (Some(Json::Str(h)), Some(Json::Array(rs))) => {
                            let mut k: usize = 0;
                            while k < rs.len()
                                invariant
                                    k <= rs.len(),
                                    self.view() == before + siren_rels(h@, json::items_view(rs@).subrange(0, k as int)),
                                decreases rs.len() - k,
                            {
                                proof {
                                    json::lemma_jv_items(rs@);
                                    assert(json::items_view(rs@).subrange(0, k + 1).drop_last() =~= json::items_view(rs@).subrange(0, k as int));
                                    assert(json::items_view(rs@).subrange(0, k + 1).last() == rs@[k as int]@);
                                }
                                match &rs[k] {
                                    Json::Str(r) => {
                                        self.push(Link { rel: text::string_of(&text::chars_of(r.as_str())), href: text::string_of(&text::chars_of(h.as_str())) });
                                    }
                                    _ => {}
                                }
                                k = k + 1;
                            }
                            proof {
                                assert(json::items_view(rs@).subrange(0, rs@.len() as int) =~= json::items_view(rs@));
                            }
                        }
                        _ => {}
                    }
                    proof {
                        json::lemma_jv_items(a@);
                        assert(json::items_view(a@).subrange(0, i + 1).drop_last() =~= json::items_view(a@).subrange(0, i as int));
                        assert(json::items_view(a@).subrange(0, i + 1).last() == a@[i as int]@);
                        assert(self.view() =~= before + siren_entry(a@[i as int]@));
                    }
                    i = i + 1;
                }
                proof {
                    assert(json::items_view(a@).subrange(0, a@.len() as int) =~= json::items_view(a@));
                }
            }
            _ => {
                proof {
                    assert(self.view() + Seq::<(Seq<char>, Seq<char>)>::empty() =~= self.view());
                    if let Some(v) = lk {
                        assert(body@.get(seq!['l', 'i', 'n', 'k', 's']) == Some(v@));
                    }
                }
            }
        }
    }
}

} // verus!
