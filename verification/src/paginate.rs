//! Pagination support: following `rel="next"` links and concatenating the
//! pages of a paginated listing into one JSON array.

use vstd::prelude::*;
use crate::json::{Json, JsonV};
use crate::links::{self, LinkSeq};
use crate::json;

verus! {

broadcast use crate::json::lemma_jv_items, vstd::std_specs::vec::group_vec_axioms;

/// Paginator configuration.
pub struct Paginator {
    /// Upper bound on the number of pages fetched.
    pub max_pages: usize,
}

impl Default for Paginator {
    fn default() -> (r: Self)
        ensures
            r.max_pages == 100,
    {
        Paginator { max_pages: 100 }
    }
}

/// The relation name followed when paging.
pub open spec fn next_rel() -> Seq<char> {
    seq!['n', 'e', 'x', 't']
}

/// The URL of the first `rel="next"` link in a `Link` header value.
pub open spec fn next_link(link: Seq<char>) -> Option<Seq<char>> {
    match links::first_rel(links::rfc5988(link), next_rel()) {
        Some(k) => Some(links::rfc5988(link)[k].1),
        None => None,
    }
}

/// What one page contributes to the concatenation: the items of an array,
/// or the page itself.
pub open spec fn page_items(page: JsonV) -> Seq<JsonV> {
    match page {
        JsonV::Array(items) => items,
        _ => seq![page],
    }
}

/// The items of all pages, in page order.
pub open spec fn flatten_pages(pages: Seq<JsonV>) -> Seq<JsonV>
    decreases pages.len(),
{
    if pages.len() == 0 {
        seq![]
    } else {
        flatten_pages(pages.drop_last()) + page_items(pages.last())
    }
}

/// The values of a concatenation of item runs are the concatenated values.
pub proof fn lemma_jv_items_add(a: Seq<Json>, b: Seq<Json>)
    ensures
        json::jv_items(a + b) == json::jv_items(a) + json::jv_items(b),
{
    json::lemma_jv_items(a + b);
    json::lemma_jv_items(a);
    json::lemma_jv_items(b);
    assert(json::jv_items(a + b) =~= json::jv_items(a) + json::jv_items(b)) by {
        assert forall|i: int| 0 <= i < a.len() + b.len() implies
            #[trigger] json::jv_items(a + b)[i] == (json::jv_items(a) + json::jv_items(b))[i] by {
            if i < a.len() {
                assert((a + b)[i] == a[i]);
            } else {
                assert((a + b)[i] == b[i - a.len()]);
            }
        }
    }
}

impl Paginator {
    /// The `rel="next"` URL from the value of an HTTP `Link` header, if the
    /// response carried one.
    pub fn next_url(&self, link_header: Option<&str>) -> (r: Option<String>)
        ensures
            link_header is None ==> r is None,
            link_header matches Some(l) ==> match (r, next_link(l@)) {
                (Some(u), Some(w)) => u@ == w,
                (None, None) => true,
                _ => false,
            },
    {
        let link = match link_header {
            Some(l) => l,
            None => return None,
        };
        let pairs = parse_link_header(link);
        let ghost s: LinkSeq = links::rfc5988(link@);
        let next = "next";
        proof {
            reveal_strlit("next");
            assert(next@ =~= next_rel());
            links::lemma_first_rel(s, next_rel());
        }
        let mut i: usize = 0;
        while i < pairs.len()
            invariant
                i <= pairs.len() == s.len(),
                link_header == Some(link),
                s == links::rfc5988(link@),
                next@ == next_rel(),
                forall|k: int| 0 <= k < pairs@.len() ==> (#[trigger] pairs@[k]).0@ == s[k].0 && pairs@[k].1@ == s[k].1,
                forall|j: int| 0 <= j < i ==> s[j].0 != next_rel(),
                links::first_rel(s, next_rel()) matches Some(k) ==> 0 <= k < s.len() && s[k].0 == next_rel()
                    && forall|j: int| 0 <= j < k ==> s[j].0 != next_rel(),
                links::first_rel(s, next_rel()) is None ==> forall|j: int| 0 <= j < s.len() ==> s[j].0 != next_rel(),
            decreases pairs.len() - i,
        {
            if crate::json::str_eq(pairs[i].0.as_str(), next) {
                proof {
                    if let Some(k) = links::first_rel(s, next_rel()) {
                        if k < i {
                        } else if k > i {
                        }
                    }
                }
                let url = pairs[i].1.clone();
                return Some(url);
            }
            i = i + 1;
        }
        None
    }

    /// Concatenate page JSON values into a single array: the items of every
    /// array page are flattened in, and any other page is kept as one item.
    pub fn concat_results(&self, pages: Vec<Json>) -> (r: Json)
        ensures
            r@ == JsonV::Array(flatten_pages(json::jv_items(pages@))),
    {
        let ghost orig = pages@;
        let mut pages = pages;
        let mut results: Vec<Json> = Vec::new();
        let ghost mut k: int = 0;
        while pages.len() > 0
            invariant
                0 <= k <= orig.len(),
                pages@ == orig.subrange(k, orig.len() as int),
                json::jv_items(results@) == flatten_pages(json::jv_items(orig.subrange(0, k))),
            decreases pages.len(),
        {
            let page = pages.remove(0);
            proof {
                assert(page == orig[k]);
                assert(orig.subrange(0, k + 1).drop_last() =~= orig.subrange(0, k));
                assert(json::jv_items(orig.subrange(0, k + 1)).drop_last() =~= json::jv_items(orig.subrange(0, k)));
                assert(json::jv_items(orig.subrange(0, k + 1)).last() == json::jv(page));
                assert(pages@ =~= orig.subrange(k + 1, orig.len() as int));
            }
            match page {
                Json::Array(mut items) => {
                    proof {
                        lemma_jv_items_add(results@, items@);
                        assert(json::jv(Json::Array(items)) == JsonV::Array(json::jv_items(items@)));
                    }
                    results.append(&mut items);
                }
                other => {
                    proof {
                        lemma_jv_items_add(results@, seq![other]);
                        assert(json::jv_items(seq![other]) =~= seq![json::jv(other)]);
                        assert(results@.push(other) =~= results@ + seq![other]);
                    }
                    results.push(other);
                }
            }
            proof {
                k = k + 1;
            }
        }
        proof {
            assert(orig.subrange(0, k) =~= orig);
        }
        Json::Array(results)
    }
}

/// Parse an RFC 5988 `Link` header value into `(rel, url)` tuples.
///
/// Example input:
/// `<https://api.example.com?page=2>; rel="next", <https://api.example.com?page=1>; rel="prev"`
pub fn parse_link_header(link: &str) -> (r: Vec<(String, String)>)
    ensures
        r@.len() == links::rfc5988(link@).len(),
        forall|i: int| 0 <= i < r@.len() ==> (#[trigger] r@[i]).0@ == links::rfc5988(link@)[i].0
            && r@[i].1@ == links::rfc5988(link@)[i].1,
{
    links::parse_rfc5988(link)
}


/// What the paging loop does once a page has come back.
pub enum PageStep {
    /// The page did not succeed: its body is the result, and the pages
    /// before it are dropped.
    Fail,
    /// Fetch the next page from this URL; it carries neither the first
    /// page's query nor its body.
    Next(String),
    /// Stop: the pages so far make the listing.
    Done,
}

/// `PageStep` with its URL as a character sequence.
pub enum PageStepV {
    Fail,
    Next(Seq<char>),
    Done,
}

/// The view of a `PageStep`.
pub open spec fn page_step_view(p: PageStep) -> PageStepV {
    match p {
        PageStep::Fail => PageStepV::Fail,
        PageStep::Next(u) => PageStepV::Next(u@),
        PageStep::Done => PageStepV::Done,
    }
}

/// The next step after page `page_num` (from 0) of at most `max_pages`:
/// a status outside 2xx fails the listing; a `rel="next"` link is resolved
/// against the page's URL (`None` when it cannot be) and followed while the
/// budget lasts; no link ends the listing.
pub open spec fn page_step_of(
    page_num: nat,
    max_pages: nat,
    current: Seq<char>,
    status: u16,
    link_header: Option<Seq<char>>,
) -> Option<PageStepV> {
    if !(200 <= status < 300) {
        Some(PageStepV::Fail)
    } else {
        match link_header {
            None => Some(PageStepV::Done),
            Some(l) => match next_link(l) {
                None => Some(PageStepV::Done),
                Some(n) => match crate::execute::next_url_of(current, n) {
                    None => None,
                    Some(u) => if page_num + 1 < max_pages {
                        Some(PageStepV::Next(u))
                    } else {
                        Some(PageStepV::Done)
                    },
                },
            },
        }
    }
}

impl Paginator {
    /// The next step after page `page_num` came back from `current` with
    /// `status` and `link_header` (see `page_step_of`). A `next` link that
    /// cannot be resolved is the network error of `resolve_next_url`.
    pub fn after_page(&self, page_num: usize, current: &str, status: u16, link_header: Option<&str>) -> (r: Result<PageStep, crate::error::SpallCliError>)
        ensures
            match r {
                Ok(p) => page_step_of(page_num as nat, self.max_pages as nat, current@, status, match link_header {
                    Some(l) => Some(l@),
                    None => None,
                }) == Some(page_step_view(p)),
                Err(e) => e is Network && page_step_of(page_num as nat, self.max_pages as nat, current@, status, match link_header {
                    Some(l) => Some(l@),
                    None => None,
                }) is None,
            },
    {
        if !(200 <= status && status < 300) {
            return Ok(PageStep::Fail);
        }
        match self.next_url(link_header) {
            None => Ok(PageStep::Done),
            Some(n) => {
                let u = crate::execute::resolve_next_url(current, n.as_str())?;
                if page_num < self.max_pages && page_num + 1 < self.max_pages {
                    Ok(PageStep::Next(u))
                } else {
                    Ok(PageStep::Done)
                }
            },
        }
    }
}

/// The number of pages fetched when, from page `page_num` on, each
/// answer's step is taken in turn from `steps`: a `Next` fetches one more
/// page, anything else ends the listing.
pub open spec fn pages_fetched(steps: Seq<PageStepV>, page_num: nat) -> nat
    decreases steps.len(),
{
    if steps.len() == 0 {
        page_num + 1
    } else {
        match steps[0] {
            PageStepV::Next(_) => pages_fetched(steps.drop_first(), page_num + 1),
            _ => page_num + 1,
        }
    }
}

/// Whether `steps` could be the steps of a listing from page `page_num`:
/// each is what `page_step_of` gives for its page and some answer.
pub open spec fn steps_possible(steps: Seq<PageStepV>, page_num: nat, max_pages: nat) -> bool
    decreases steps.len(),
{
    steps.len() == 0 || (
        (exists|current: Seq<char>, status: u16, link: Option<Seq<char>>|
            #[trigger] page_step_of(page_num, max_pages, current, status, link) == Some(steps[0]))
        && steps_possible(steps.drop_first(), page_num + 1, max_pages))
}

/// However the pages answer, a listing fetches at most `max_pages` pages.
pub proof fn law_pages_within_budget(steps: Seq<PageStepV>, page_num: nat, max_pages: nat)
    requires
        page_num < max_pages,
        steps_possible(steps, page_num, max_pages),
    ensures
        pages_fetched(steps, page_num) <= max_pages,
    decreases steps.len(),
{
    if steps.len() > 0 {
        if steps[0] is Next {
            let (current, status, link) = choose|current: Seq<char>, status: u16, link: Option<Seq<char>>|
                #[trigger] page_step_of(page_num, max_pages, current, status, link) == Some(steps[0]);
            assert(page_num + 1 < max_pages);
            law_pages_within_budget(steps.drop_first(), page_num + 1, max_pages);
        }
    }
}

} // verus!
