//! Decisions of the `spall api` management commands over the registered
//! APIs, each given as its name and spec source, in registry order.

use vstd::prelude::*;
use crate::error::SpallCliError;
use crate::fetch::is_remote;
use crate::order::{self, PairSeq};
use crate::text;

verus! {

/// `n` spaces.
pub open spec fn spaces(n: nat) -> Seq<char> {
    Seq::new(n, |i: int| ' ')
}

/// `s` padded with spaces on the right to `width` characters (`{:<width}`).
pub open spec fn pad_right(s: Seq<char>, width: nat) -> Seq<char> {
    if s.len() < width {
        s + spaces((width - s.len()) as nat)
    } else {
        s
    }
}

/// The lines after the heading of `spall api list`, each starting on a new
/// line: two spaces, the name padded to 20 characters, a space, the source.
pub open spec fn listing_lines(entries: PairSeq) -> Seq<char>
    decreases entries.len(),
{
    if entries.len() == 0 {
        seq![]
    } else {
        listing_lines(entries.drop_last()) + "\n  "@ + pad_right(entries.last().0, 20) + " "@ + entries.last().1
    }
}

/// What `spall api list` prints.
pub open spec fn api_listing_of(entries: PairSeq) -> Seq<char> {
    if entries.len() == 0 {
        "Registered APIs:\n  (no APIs registered yet)"@
    } else {
        "Registered APIs:"@ + listing_lines(entries)
    }
}

/// What `spall api list` prints for the registered APIs (see `api_listing_of`).
pub fn api_listing(entries: &Vec<(String, String)>) -> (r: String)
    ensures
        r@ == api_listing_of(order::pair_views(entries@)),
{
    if entries.len() == 0 {
        return "Registered APIs:\n  (no APIs registered yet)".to_owned();
    }
    let ghost ev = order::pair_views(entries@);
    let mut out = "Registered APIs:".to_owned();
    let mut i: usize = 0;
    while i < entries.len()
        invariant
            i <= entries.len(),
            ev == order::pair_views(entries@),
            out@ == "Registered APIs:"@ + listing_lines(ev.subrange(0, i as int)),
        decreases entries.len() - i,
    {
        proof {
            assert(ev.subrange(0, i + 1).drop_last() =~= ev.subrange(0, i as int));
            assert(ev.subrange(0, i + 1).last() == ev[i as int]);
        }
        let name = entries[i].0.as_str();
        out.append("\n  ");
        out.append(name);
        let n = text::chars_of(name).len();
        let ghost before = out@;
        let mut k: usize = n;
        while k < 20
            invariant
                n <= k <= 20 || (n > 20 && k == n),
                out@ == before + spaces((k - n) as nat),
            decreases 20 - k,
        {
            text::push_char(&mut out, ' ');
            proof {
                assert(spaces((k + 1 - n) as nat) =~= spaces((k - n) as nat).push(' '));
            }
            k = k + 1;
        }
        proof {
            if n >= 20 {
                assert(spaces((k - n) as nat) =~= Seq::<char>::empty());
            }
            assert(pad_right(name@, 20) =~= name@ + spaces((k - n) as nat));
        }
        out.append(" ");
        out.append(entries[i].1.as_str());
        proof {
            assert(out@ =~= "Registered APIs:"@ + listing_lines(ev.subrange(0, i + 1)));
        }
        i = i + 1;
    }
    proof {
        assert(ev.subrange(0, entries@.len() as int) =~= ev);
    }
    out
}

/// What `spall api refresh` does.
pub enum RefreshPlan {
    /// With `--all`: refresh each remote API (name, source) in turn; a
    /// failure is reported and the others still go.
    All(Vec<(String, String)>),
    /// Refresh this remote API (name, source); a failure is an error.
    One(String, String),
    /// The named API reads its spec from a file: only warn.
    FileSource(String),
}

/// The remote APIs among `entries`, in order.
pub open spec fn remote_entries(entries: PairSeq) -> PairSeq
    decreases entries.len(),
{
    if entries.len() == 0 {
        seq![]
    } else if is_remote(entries.last().1) {
        remote_entries(entries.drop_last()).push(entries.last())
    } else {
        remote_entries(entries.drop_last())
    }
}

/// The first registered API named `name`.
pub open spec fn entry_index(entries: PairSeq, name: Seq<char>) -> Option<int>
    decreases entries.len(),
{
    if entries.len() == 0 {
        None
    } else if entries[0].0 == name {
        Some(0)
    } else {
        match entry_index(entries.drop_first(), name) {
            Some(i) => Some(i + 1),
            None => None,
        }
    }
}

/// `RefreshPlan` with its strings as character sequences.
pub enum RefreshPlanV {
    All(PairSeq),
    One(Seq<char>, Seq<char>),
    FileSource(Seq<char>),
}

/// The view of a `RefreshPlan`.
pub open spec fn plan_view(p: RefreshPlan) -> RefreshPlanV {
    match p {
        RefreshPlan::All(v) => RefreshPlanV::All(order::pair_views(v@)),
        RefreshPlan::One(n, s) => RefreshPlanV::One(n@, s@),
        RefreshPlan::FileSource(n) => RefreshPlanV::FileSource(n@),
    }
}

/// What `spall api refresh` does: with `--all`, every remote API; else the
/// named API (which must be registered) when its spec is remote, or a
/// warning when it is a file; with neither, a usage error.
pub open spec fn refresh_plan_of(all: bool, name: Option<Seq<char>>, entries: PairSeq) -> Result<RefreshPlanV, Seq<char>> {
    if all {
        Ok(RefreshPlanV::All(remote_entries(entries)))
    } else {
        match name {
            None => Err("Provide an API name or use --all"@),
            Some(n) => match entry_index(entries, n) {
                None => Err("Unknown API: "@ + n),
                Some(k) => if is_remote(entries[k].1) {
                    Ok(RefreshPlanV::One(n, entries[k].1))
                } else {
                    Ok(RefreshPlanV::FileSource(n))
                },
            },
        }
    }
}

/// The first registered API named `name`.
fn entry_index_exec(entries: &Vec<(String, String)>, name: &str) -> (r: Option<usize>)
    ensures
        match r {
            Some(k) => entry_index(order::pair_views(entries@), name@) == Some(k as int) && k < entries.len(),
            None => entry_index(order::pair_views(entries@), name@) is None,
        },
{
    let ghost ev = order::pair_views(entries@);
    let mut i: usize = 0;
    proof {
        assert(ev.subrange(0, ev.len() as int) =~= ev);
    }
    while i < entries.len()
        invariant
            i <= entries.len(),
            ev == order::pair_views(entries@),
            entry_index(ev, name@) == match entry_index(ev.subrange(i as int, ev.len() as int), name@) {
                Some(k) => Some(k + i),
                None => None,
            },
        decreases entries.len() - i,
    {
        proof {
            let rest = ev.subrange(i as int, ev.len() as int);
            assert(rest.drop_first() =~= ev.subrange(i + 1, ev.len() as int));
            assert(rest[0] == ev[i as int]);
        }
        if crate::json::str_eq(entries[i].0.as_str(), name) {
            return Some(i);
        }
        i = i + 1;
    }
    None
}

/// What `spall api refresh` does (see `refresh_plan_of`); the errors are
/// usage errors.
pub fn refresh_plan(all: bool, name: Option<&str>, entries: &Vec<(String, String)>) -> (r: Result<RefreshPlan, SpallCliError>)
    ensures
        match (r, refresh_plan_of(all, match name { Some(n) => Some(n@), None => None }, order::pair_views(entries@))) {
            (Ok(p), Ok(q)) => plan_view(p) == q,
            (Err(SpallCliError::Usage(m)), Err(e)) => m@ == e,
            _ => false,
        },
{
    let ghost ev = order::pair_views(entries@);
    if all {
        let mut out: Vec<(String, String)> = Vec::new();
        let mut i: usize = 0;
        while i < entries.len()
            invariant
                i <= entries.len(),
                ev == order::pair_views(entries@),
                order::pair_views(out@) == remote_entries(ev.subrange(0, i as int)),
            decreases entries.len() - i,
        {
            proof {
                assert(ev.subrange(0, i + 1).drop_last() =~= ev.subrange(0, i as int));
                assert(ev.subrange(0, i + 1).last() == ev[i as int]);
            }
            if crate::fetch::is_remote_source(entries[i].1.as_str()) {
                let ghost before = out@;
                out.push((entries[i].0.clone(), entries[i].1.clone()));
                proof {
                    assert(order::pair_views(out@) =~= order::pair_views(before).push(ev[i as int]));
                }
            }
            i = i + 1;
        }
        proof {
            assert(ev.subrange(0, entries@.len() as int) =~= ev);
        }
        return Ok(RefreshPlan::All(out));
    }
    let n = match name {
        Some(n) => n,
        None => return Err(SpallCliError::Usage("Provide an API name or use --all".to_owned())),
    };
    match entry_index_exec(entries, n) {
        None => {
            let mut m = "Unknown API: ".to_owned();
            m.append(n);
            Err(SpallCliError::Usage(m))
        },
        Some(k) => {
            if crate::fetch::is_remote_source(entries[k].1.as_str()) {
                Ok(RefreshPlan::One(n.to_owned(), entries[k].1.clone()))
            } else {
                Ok(RefreshPlan::FileSource(n.to_owned()))
            }
        },
    }
}

} // verus!
