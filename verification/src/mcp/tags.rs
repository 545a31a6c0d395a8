//! Tag buckets of the operations: the counts behind the large-registry
//! warning and the `--spall-list-tags` listing.
//!
//! An operation contributes once to each tag it carries; an untagged one
//! belongs to the synthetic `default` tag.

use vstd::prelude::*;
use crate::ir::{self, OperationInfo};
use crate::mcp::tools;
use crate::order;
use crate::text;

verus! {

/// The buckets an operation with these tags falls into.
pub open spec fn buckets_of(tags: Seq<Seq<char>>) -> Seq<Seq<char>> {
    if tags.len() == 0 {
        seq![tools::default_tag()]
    } else {
        tags
    }
}

/// The buckets of operation `i` (none for an index out of range).
pub open spec fn op_buckets(ops: Seq<OperationInfo>, i: usize) -> Seq<Seq<char>> {
    if i < ops.len() {
        buckets_of(ir::str_views(ops[i as int].tags@))
    } else {
        seq![]
    }
}

/// Every bucket contribution of the operations at `idx`, in order.
pub open spec fn contributions(ops: Seq<OperationInfo>, idx: Seq<usize>) -> Seq<Seq<char>>
    decreases idx.len(),
{
    if idx.len() == 0 {
        seq![]
    } else {
        contributions(ops, idx.drop_last()) + op_buckets(ops, idx.last())
    }
}

/// How often `t` occurs in `c`.
pub open spec fn count_of(c: Seq<Seq<char>>, t: Seq<char>) -> nat
    decreases c.len(),
{
    if c.len() == 0 {
        0
    } else {
        count_of(c.drop_last(), t) + if c.last() == t { 1nat } else { 0nat }
    }
}

/// `t` occurs in `c` exactly when it is counted.
pub proof fn lemma_count_of_pos(c: Seq<Seq<char>>, t: Seq<char>)
    ensures
        (count_of(c, t) > 0) == c.contains(t),
        count_of(c, t) <= c.len(),
    decreases c.len(),
{
    if c.len() > 0 {
        lemma_count_of_pos(c.drop_last(), t);
        if c.drop_last().contains(t) {
            let k = choose|k: int| 0 <= k < c.drop_last().len() && c.drop_last()[k] == t;
            assert(c[k] == t);
        }
        if c.contains(t) && c.last() != t {
            let k = choose|k: int| 0 <= k < c.len() && c[k] == t;
            assert(c.drop_last()[k] == t);
        }
    }
}

/// The first operation at `idx` that falls into bucket `t`.
pub open spec fn sample_of(ops: Seq<OperationInfo>, idx: Seq<usize>, t: Seq<char>) -> Option<Seq<char>>
    decreases idx.len(),
{
    if idx.len() == 0 {
        None
    } else if op_buckets(ops, idx[0]).contains(t) {
        Some(ops[idx[0] as int].operation_id@)
    } else {
        sample_of(ops, idx.drop_first(), t)
    }
}

/// The operation indices of a registry's entries, in registry order.
pub open spec fn entry_indices(reg: Seq<tools::ToolView>) -> Seq<usize> {
    reg.map_values(|e: tools::ToolView| e.op_index as usize)
}

/// Whether operation `i` falls into bucket `t`.
fn in_bucket(ops: &Vec<OperationInfo>, i: usize, t: &str) -> (b: bool)
    ensures
        b == op_buckets(ops@, i).contains(t@),
{
    if i >= ops.len() {
        return false;
    }
    let tags = &ops[i].tags;
    if tags.len() == 0 {
        proof {
            reveal_strlit("default");
            let b = op_buckets(ops@, i);
            assert(b =~= seq!["default"@]);
            if b.contains(t@) {
                let j = choose|j: int| 0 <= j < b.len() && b[j] == t@;
                assert(j == 0);
            }
            if t@ == "default"@ {
                assert(b[0] == t@);
            }
        }
        return crate::json::str_eq(t, "default");
    }
    let mut k: usize = 0;
    while k < tags.len()
        invariant
            k <= tags.len(),
            i < ops@.len(),
            tags@ == ops@[i as int].tags@,
            tags@.len() > 0,
            forall|j: int| 0 <= j < k ==> tags@[j]@ != t@,
        decreases tags.len() - k,
    {
        if crate::json::str_eq(tags[k].as_str(), t) {
            proof {
                assert(ir::str_views(tags@)[k as int] == t@);
            }
            return true;
        }
        k = k + 1;
    }
    proof {
        let b = op_buckets(ops@, i);
        if b.contains(t@) {
            let j = choose|j: int| 0 <= j < b.len() && b[j] == t@;
            assert(tags@[j]@ == t@);
        }
    }
    false
}

/// Copies of the buckets of operation `i`.
fn buckets_exec(ops: &Vec<OperationInfo>, i: usize) -> (r: Vec<String>)
    ensures
        ir::str_views(r@) == op_buckets(ops@, i),
{
    let mut r: Vec<String> = Vec::new();
    if i >= ops.len() {
        proof {
            assert(ir::str_views(r@) =~= op_buckets(ops@, i));
        }
        return r;
    }
    let tags = &ops[i].tags;
    if tags.len() == 0 {
        r.push("default".to_owned());
        proof {
            assert(ir::str_views(r@) =~= op_buckets(ops@, i));
        }
        return r;
    }
    let mut k: usize = 0;
    while k < tags.len()
        invariant
            k <= tags.len(),
            i < ops@.len(),
            tags@ == ops@[i as int].tags@,
            r@.len() == k,
            forall|j: int| 0 <= j < k ==> #[trigger] r@[j]@ == tags@[j]@,
        decreases tags.len() - k,
    {
        r.push(tags[k].clone());
        k = k + 1;
    }
    proof {
        assert(ir::str_views(r@) =~= op_buckets(ops@, i));
    }
    r
}

/// Every bucket contribution of the operations at `idx`.
fn flatten(ops: &Vec<OperationInfo>, idx: &Vec<usize>) -> (r: Vec<String>)
    ensures
        ir::str_views(r@) == contributions(ops@, idx@),
{
    let mut r: Vec<String> = Vec::new();
    let mut i: usize = 0;
    while i < idx.len()
        invariant
            i <= idx.len(),
            ir::str_views(r@) == contributions(ops@, idx@.subrange(0, i as int)),
        decreases idx.len() - i,
    {
        let b = buckets_exec(ops, idx[i]);
        let mut k: usize = 0;
        let ghost before = r@;
        while k < b.len()
            invariant
                k <= b.len(),
                r@.len() == before.len() + k,
                forall|j: int| 0 <= j < before.len() ==> #[trigger] r@[j] == before[j],
                forall|j: int| 0 <= j < k ==> #[trigger] r@[before.len() + j]@ == b@[j]@,
            decreases b.len() - k,
        {
            r.push(b[k].clone());
            k = k + 1;
        }
        proof {
            assert forall|j: int| 0 <= j < r@.len() implies #[trigger] ir::str_views(r@)[j] == (ir::str_views(before) + ir::str_views(b@))[j] by {
                if j >= before.len() {
                    assert(r@[before.len() + (j - before.len())]@ == b@[j - before.len()]@);
                }
            }
            assert(ir::str_views(r@) =~= ir::str_views(before) + ir::str_views(b@));
        }
        proof {
            assert(idx@.subrange(0, i + 1).drop_last() =~= idx@.subrange(0, i as int));
            assert(ir::str_views(b@).subrange(0, k as int) =~= ir::str_views(b@));
        }
        i = i + 1;
    }
    proof {
        assert(idx@.subrange(0, idx@.len() as int) =~= idx@);
    }
    r
}

/// How often `t` occurs among `c`.
fn count_exec(c: &Vec<String>, t: &str) -> (n: usize)
    ensures
        n == count_of(ir::str_views(c@), t@),
{
    let mut n: usize = 0;
    let mut i: usize = 0;
    while i < c.len()
        invariant
            i <= c.len(),
            n == count_of(ir::str_views(c@.subrange(0, i as int)), t@),
        decreases c.len() - i,
    {
        proof {
            assert(ir::str_views(c@.subrange(0, i + 1)).drop_last() =~= ir::str_views(c@.subrange(0, i as int)));
            lemma_count_of_pos(ir::str_views(c@.subrange(0, i as int)), t@);
        }
        if crate::json::str_eq(c[i].as_str(), t) {
            n = n + 1;
        }
        i = i + 1;
    }
    proof {
        assert(c@.subrange(0, c@.len() as int) =~= c@);
    }
    n
}

/// The distinct members of `c`, in ascending order.
fn distinct_sorted(c: &Vec<String>) -> (r: Vec<String>)
    ensures
        order::strictly_sorted(order::views(r@)),
        forall|x: Seq<char>| order::views(r@).contains(x) <==> ir::str_views(c@).contains(x),
{
    let mut r: Vec<String> = Vec::new();
    let mut i: usize = 0;
    while i < c.len()
        invariant
            i <= c.len(),
            order::strictly_sorted(order::views(r@)),
            forall|x: Seq<char>| order::views(r@).contains(x) <==> ir::str_views(c@.subrange(0, i as int)).contains(x),
        decreases c.len() - i,
    {
        let ghost old_r = r@;
        order::insert_sorted(&mut r, c[i].clone());
        proof {
            let pre = ir::str_views(c@.subrange(0, i as int));
            let post = ir::str_views(c@.subrange(0, i + 1));
            assert(post =~= pre.push(c@[i as int]@));
            assert forall|x: Seq<char>| order::views(r@).contains(x) <==> post.contains(x) by {
                if pre.contains(x) {
                    let k = choose|k: int| 0 <= k < pre.len() && pre[k] == x;
                    assert(post[k] == x);
                }
                if post.contains(x) && x != c@[i as int]@ {
                    let k = choose|k: int| 0 <= k < post.len() && post[k] == x;
                    assert(pre[k] == x);
                }
                if x == c@[i as int]@ {
                    assert(post[i as int] == x);
                }
            }
        }
        i = i + 1;
    }
    proof {
        assert(c@.subrange(0, c@.len() as int) =~= c@);
    }
    r
}

/// The first operation at `idx` that falls into bucket `t`.
fn sample_exec(ops: &Vec<OperationInfo>, idx: &Vec<usize>, t: &str) -> (r: Option<String>)
    ensures
        tools::opt_view(r) == sample_of(ops@, idx@, t@),
{
    let mut i: usize = 0;
    proof {
        assert(idx@.subrange(0, idx@.len() as int) =~= idx@);
    }
    while i < idx.len()
        invariant
            i <= idx.len(),
            sample_of(ops@, idx@, t@) == sample_of(ops@, idx@.subrange(i as int, idx@.len() as int), t@),
        decreases idx.len() - i,
    {
        proof {
            let rest = idx@.subrange(i as int, idx@.len() as int);
            assert(rest.drop_first() =~= idx@.subrange(i + 1, idx@.len() as int));
            assert(rest[0] == idx@[i as int]);
        }
        if in_bucket(ops, idx[i], t) {
            return Some(ops[idx[i]].operation_id.clone());
        }
        i = i + 1;
    }
    None
}

/// One row of the tag listing.
pub struct TagRow {
    pub tag: String,
    pub count: usize,
    /// The id of the first operation in the bucket.
    pub sample: String,
}

/// The tag listing of the operations that pass the tag filter: one row per
/// bucket, in ascending tag order, with the number of operations in it and
/// the id of the first one.
pub fn list_tags(ops: &Vec<OperationInfo>, wanted: &Vec<String>, unwanted: &Vec<String>) -> (r: Vec<TagRow>)
    ensures
        ({
            let idx = tools::admitted(ops@, ir::str_views(wanted@), ir::str_views(unwanted@));
            let c = contributions(ops@, idx);
            &&& order::strictly_sorted(r@.map_values(|row: TagRow| row.tag@))
            &&& forall|x: Seq<char>| r@.map_values(|row: TagRow| row.tag@).contains(x) <==> c.contains(x)
            &&& forall|i: int| 0 <= i < r@.len() ==> #[trigger] r@[i].count == count_of(c, r@[i].tag@)
                && sample_of(ops@, idx, r@[i].tag@) == Some(r@[i].sample@)
        }),
{
    let idx = tools::admitted_exec(ops, wanted, unwanted);
    let c = flatten(ops, &idx);
    let tags = distinct_sorted(&c);
    let mut rows: Vec<TagRow> = Vec::new();
    let mut i: usize = 0;
    while i < tags.len()
        invariant
            i <= tags.len(),
            idx@ == tools::admitted(ops@, ir::str_views(wanted@), ir::str_views(unwanted@)),
            ir::str_views(c@) == contributions(ops@, idx@),
            forall|x: Seq<char>| order::views(tags@).contains(x) <==> ir::str_views(c@).contains(x),
            rows@.len() == i,
            forall|k: int| 0 <= k < i ==> #[trigger] rows@[k].tag@ == tags@[k]@
                && rows@[k].count == count_of(ir::str_views(c@), tags@[k]@)
                && sample_of(ops@, idx@, tags@[k]@) == Some(rows@[k].sample@),
        decreases tags.len() - i,
    {
        let t = tags[i].as_str();
        let n = count_exec(&c, t);
        proof {
            assert(order::views(tags@)[i as int] == t@);
            assert(ir::str_views(c@).contains(t@));
            lemma_sample_found(ops@, idx@, t@);
        }
        let sample = match sample_exec(ops, &idx, t) {
            Some(s) => s,
            None => String::new(),
        };
        rows.push(TagRow { tag: tags[i].clone(), count: n, sample });
        i = i + 1;
    }
    proof {
        assert(rows@.map_values(|row: TagRow| row.tag@) =~= order::views(tags@));
    }
    rows
}

/// A bucket that has contributions has a first operation.
pub proof fn lemma_sample_found(ops: Seq<OperationInfo>, idx: Seq<usize>, t: Seq<char>)
    requires
        contributions(ops, idx).contains(t),
    ensures
        sample_of(ops, idx, t) is Some,
    decreases idx.len(),
{
    if idx.len() > 0 {
        if !op_buckets(ops, idx[0]).contains(t) {
            lemma_contributions_drop_first(ops, idx);
            let c = contributions(ops, idx);
            let k = choose|k: int| 0 <= k < c.len() && c[k] == t;
            let head = op_buckets(ops, idx[0]);
            if k < head.len() {
                assert(head[k] == t);
            } else {
                assert(contributions(ops, idx.drop_first())[k - head.len()] == t);
            }
            lemma_sample_found(ops, idx.drop_first(), t);
        }
    }
}

/// The contributions of a non-empty index list: the first operation's,
/// then the rest's.
pub proof fn lemma_contributions_drop_first(ops: Seq<OperationInfo>, idx: Seq<usize>)
    requires
        idx.len() > 0,
    ensures
        contributions(ops, idx) == op_buckets(ops, idx[0]) + contributions(ops, idx.drop_first()),
    decreases idx.len(),
{
    if idx.len() == 1 {
        assert(idx.drop_first() =~= Seq::<usize>::empty());
        assert(idx.drop_last() =~= Seq::<usize>::empty());
        assert(contributions(ops, idx.drop_last()) =~= Seq::<Seq<char>>::empty());
        assert(idx.last() == idx[0]);
        assert(contributions(ops, idx.drop_first()) =~= Seq::<Seq<char>>::empty());
        assert(contributions(ops, idx) =~= op_buckets(ops, idx[0]));
    } else {
        lemma_contributions_drop_first(ops, idx.drop_last());
        assert(idx.drop_last().drop_first() =~= idx.drop_first().drop_last());
        assert(idx.drop_first().last() == idx.last());
        assert(contributions(ops, idx) =~= op_buckets(ops, idx[0]) + contributions(ops, idx.drop_first()));
    }
}


/// Histogram order: a higher count first, then the smaller tag.
pub open spec fn hist_before(a: (Seq<char>, nat), b: (Seq<char>, nat)) -> bool {
    a.1 > b.1 || (a.1 == b.1 && order::lex_lt(a.0, b.0))
}

/// The rows of a histogram as plain values.
pub open spec fn hist_view(r: Seq<(String, usize)>) -> Seq<(Seq<char>, nat)> {
    r.map_values(|p: (String, usize)| (p.0@, p.1 as nat))
}

/// The tags of histogram rows.
pub open spec fn hist_tags(r: Seq<(Seq<char>, nat)>) -> Seq<Seq<char>> {
    r.map_values(|p: (Seq<char>, nat)| p.0)
}

/// `r` is the histogram of the contributions `c` capped at `top_n`: each
/// row is a contributed tag with its count, the rows are in histogram
/// order, and a tag is left out only when the cap is reached and every row
/// comes before it.
pub open spec fn is_histogram(c: Seq<Seq<char>>, top_n: nat, r: Seq<(Seq<char>, nat)>) -> bool {
    &&& r.len() <= top_n
    &&& forall|i: int| 0 <= i < r.len() ==> c.contains(#[trigger] r[i].0) && r[i].1 == count_of(c, r[i].0)
    &&& forall|i: int, j: int| 0 <= i < j < r.len() ==> hist_before(#[trigger] r[i], #[trigger] r[j])
    &&& forall|t: Seq<char>| #[trigger] c.contains(t) && !hist_tags(r).contains(t) ==> {
        &&& r.len() == top_n
        &&& forall|i: int| 0 <= i < r.len() ==> hist_before(#[trigger] r[i], (t, count_of(c, t)))
    }
}

/// Index order of the selection: a higher count, or the same count and an
/// earlier (smaller) tag.
pub open spec fn ibefore(counts: Seq<usize>, a: int, b: int) -> bool {
    counts[a] > counts[b] || (counts[a] == counts[b] && a < b)
}

/// The operation indices of the registry's entries.
fn entry_indices_exec(registry: &tools::ToolRegistry) -> (r: Vec<usize>)
    ensures
        r@ == entry_indices(tools::registry_entries(*registry)),
{
    let ghost rv = tools::registry_entries(*registry);
    let n = tools::registry_len(registry);
    let mut r: Vec<usize> = Vec::new();
    let mut i: usize = 0;
    while i < n
        invariant
            i <= n == rv.len(),
            rv == tools::registry_entries(*registry),
            r@ =~= entry_indices(rv.subrange(0, i as int)),
        decreases n - i,
    {
        let (_, entry) = tools::registry_at(registry, i);
        r.push(entry.op_index);
        i = i + 1;
        proof {
            assert(r@ =~= entry_indices(rv.subrange(0, i as int)));
        }
    }
    proof {
        assert(rv.subrange(0, n as int) =~= rv);
    }
    r
}

/// The `(tag, count)` rows behind the large-registry warning: each entry's
/// operation contributes once to each of its buckets; rows in histogram
/// order, at most `top_n` of them (see `is_histogram`).
pub fn tag_histogram(registry: &tools::ToolRegistry, ops: &Vec<OperationInfo>, top_n: usize) -> (r: Vec<(String, usize)>)
    ensures
        is_histogram(contributions(ops@, entry_indices(tools::registry_entries(*registry))), top_n as nat, hist_view(r@)),
{
    let idx = entry_indices_exec(registry);
    let c = flatten(ops, &idx);
    let ghost cv = ir::str_views(c@);
    let tags = distinct_sorted(&c);
    let n = tags.len();
    let mut counts: Vec<usize> = Vec::new();
    let mut taken: Vec<bool> = Vec::new();
    let mut k: usize = 0;
    while k < n
        invariant
            k <= n == tags@.len(),
            cv == ir::str_views(c@),
            counts@.len() == k,
            taken@.len() == k,
            forall|j: int| 0 <= j < k ==> #[trigger] counts@[j] == count_of(cv, tags@[j]@),
            forall|j: int| 0 <= j < k ==> !#[trigger] taken@[j],
        decreases n - k,
    {
        counts.push(count_exec(&c, tags[k].as_str()));
        taken.push(false);
        k = k + 1;
    }
    let mut out: Vec<(String, usize)> = Vec::new();
    let ghost mut sel: Seq<int> = seq![];
    let mut done = false;
    while !done && out.len() < top_n
        invariant
            n == tags@.len() == counts@.len() == taken@.len(),
            cv == ir::str_views(c@),
            forall|j: int| 0 <= j < n ==> #[trigger] counts@[j] == count_of(cv, tags@[j]@),
            out@.len() == sel.len() <= top_n,
            forall|i: int| 0 <= i < sel.len() ==> 0 <= #[trigger] sel[i] < n,
            forall|j: int| 0 <= j < n ==> (#[trigger] taken@[j] <==> sel.contains(j)),
            forall|i: int| 0 <= i < sel.len() ==> #[trigger] out@[i].0@ == tags@[sel[i]]@ && out@[i].1 == counts@[sel[i]],
            forall|i: int, j: int| 0 <= i < j < sel.len() ==> ibefore(counts@, #[trigger] sel[i], #[trigger] sel[j]),
            forall|i: int, j: int| 0 <= i < sel.len() && 0 <= j < n && !#[trigger] taken@[j] ==> ibefore(counts@, #[trigger] sel[i], j),
            done ==> forall|j: int| 0 <= j < n ==> #[trigger] taken@[j],
        decreases top_n + 1 - out.len() - (if done { 1int } else { 0int }),
    {
        let mut best: usize = n;
        let mut k: usize = 0;
        while k < n
            invariant
                k <= n == taken@.len() == counts@.len(),
                best == n || (best < k && !taken@[best as int]),
                best == n ==> forall|j: int| 0 <= j < k ==> #[trigger] taken@[j],
                best < n ==> forall|j: int| 0 <= j < k && !#[trigger] taken@[j] && j != best ==> ibefore(counts@, best as int, j),
            decreases n - k,
        {
            if !taken[k] && (best == n || counts[k] > counts[best]) {
                best = k;
            }
            k = k + 1;
        }
        if best == n {
            done = true;
        } else {
            let ghost old_taken = taken@;
            taken.set(best, true);
            out.push((tags[best].clone(), counts[best]));
            proof {
                let old_sel = sel;
                sel = sel.push(best as int);
                assert forall|j: int| 0 <= j < n implies (#[trigger] taken@[j] <==> sel.contains(j)) by {
                    if old_sel.contains(j) {
                        let q = choose|q: int| 0 <= q < old_sel.len() && old_sel[q] == j;
                        assert(sel[q] == j);
                    }
                    if sel.contains(j) && j != best {
                        let q = choose|q: int| 0 <= q < sel.len() && sel[q] == j;
                        assert(old_sel[q] == j);
                    }
                    if j == best {
                        assert(sel[old_sel.len() as int] == j);
                    }
                }
                assert forall|i: int, j: int| 0 <= i < j < sel.len() implies ibefore(counts@, #[trigger] sel[i], #[trigger] sel[j]) by {
                    if j == sel.len() - 1 {
                        assert(!old_taken[best as int]);
                        assert(old_sel[i] == sel[i]);
                    } else {
                        assert(old_sel[i] == sel[i] && old_sel[j] == sel[j]);
                    }
                }
                assert forall|i: int, j: int| 0 <= i < sel.len() && 0 <= j < n && !#[trigger] taken@[j] implies ibefore(counts@, #[trigger] sel[i], j) by {
                    assert(j != best);
                    assert(!old_taken[j]);
                    if i < sel.len() - 1 {
                        assert(old_sel[i] == sel[i]);
                    }
                }
            }
        }
    }
    proof {
        lemma_histogram_rows(cv, tags@, counts@, out@, sel, top_n as nat, done, taken@);
    }
    out
}

/// The selection's invariants make its output the histogram.
proof fn lemma_histogram_rows(
    cv: Seq<Seq<char>>,
    tags: Seq<String>,
    counts: Seq<usize>,
    out: Seq<(String, usize)>,
    sel: Seq<int>,
    top_n: nat,
    done: bool,
    taken: Seq<bool>,
)
    requires
        order::strictly_sorted(order::views(tags)),
        forall|x: Seq<char>| order::views(tags).contains(x) <==> cv.contains(x),
        tags.len() == counts.len() == taken.len(),
        forall|j: int| 0 <= j < tags.len() ==> #[trigger] counts[j] == count_of(cv, tags[j]@),
        out.len() == sel.len() <= top_n,
        forall|i: int| 0 <= i < sel.len() ==> 0 <= #[trigger] sel[i] < tags.len(),
        forall|j: int| 0 <= j < tags.len() ==> (#[trigger] taken[j] <==> sel.contains(j)),
        forall|i: int| 0 <= i < sel.len() ==> #[trigger] out[i].0@ == tags[sel[i]]@ && out[i].1 == counts[sel[i]],
        forall|i: int, j: int| 0 <= i < j < sel.len() ==> ibefore(counts, #[trigger] sel[i], #[trigger] sel[j]),
        forall|i: int, j: int| 0 <= i < sel.len() && 0 <= j < tags.len() && !#[trigger] taken[j] ==> ibefore(counts, #[trigger] sel[i], j),
        done ==> forall|j: int| 0 <= j < tags.len() ==> #[trigger] taken[j],
        !done ==> out.len() >= top_n,
    ensures
        is_histogram(cv, top_n, hist_view(out)),
{
    let r = hist_view(out);
    let tv = order::views(tags);
    assert forall|a: int, b: int| 0 <= a < tags.len() && 0 <= b < tags.len() && ibefore(counts, a, b)
        implies hist_before((#[trigger] tv[a], counts[a] as nat), (#[trigger] tv[b], counts[b] as nat)) by {
        if counts[a] == counts[b] {
            assert(order::lex_lt(tv[a], tv[b]));
        }
    }
    assert forall|i: int| 0 <= i < r.len() implies cv.contains(#[trigger] r[i].0) && r[i].1 == count_of(cv, r[i].0) by {
        assert(r[i].0 == tv[sel[i]]);
        assert(tv.contains(tv[sel[i]]));
    }
    assert forall|i: int, j: int| 0 <= i < j < r.len() implies hist_before(#[trigger] r[i], #[trigger] r[j]) by {
        assert(ibefore(counts, sel[i], sel[j]));
        assert(r[i] == (tv[sel[i]], counts[sel[i]] as nat));
        assert(r[j] == (tv[sel[j]], counts[sel[j]] as nat));
    }
    assert forall|t: Seq<char>| #[trigger] cv.contains(t) && !hist_tags(r).contains(t) implies {
        &&& r.len() == top_n
        &&& forall|i: int| 0 <= i < r.len() ==> hist_before(#[trigger] r[i], (t, count_of(cv, t)))
    } by {
        assert(tv.contains(t));
        let k = choose|k: int| 0 <= k < tv.len() && tv[k] == t;
        if taken[k] {
            let q = choose|q: int| 0 <= q < sel.len() && sel[q] == k;
            assert(hist_tags(r)[q] == t);
        }
        assert(!taken[k]);
        assert forall|i: int| 0 <= i < r.len() implies hist_before(#[trigger] r[i], (t, count_of(cv, t))) by {
            assert(ibefore(counts, sel[i], k));
            assert(r[i] == (tv[sel[i]], counts[sel[i]] as nat));
        }
    }
}

} // verus!
