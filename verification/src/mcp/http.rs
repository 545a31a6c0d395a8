//! The MCP Streamable-HTTP transport's rules: the Origin gate, sessions
//! with an idle timeout, the protocol-version gate, and the shape of the
//! reply to a POST.

use vstd::prelude::*;
use crate::text;
use crate::json::{Json, JsonV};
use crate::strmap;

verus! {

/// Cap on request body size (16 MiB).
pub const MAX_BODY_BYTES: usize = 16777216;
/// Idle timeout of a session, in seconds.
pub const SESSION_TTL_SECS: u64 = 3600;
/// How often idle sessions are pruned, in seconds.
pub const PRUNE_INTERVAL_SECS: u64 = 300;
/// Header carrying the session id.
pub const HEADER_SESSION_ID: &'static str = "mcp-session-id";
/// Header carrying the negotiated protocol version.
pub const HEADER_PROTOCOL_VERSION: &'static str = "mcp-protocol-version";
/// Default port.
pub const DEFAULT_PORT: u16 = 8765;
/// Default bind interface.
pub const DEFAULT_BIND: &'static str = "127.0.0.1";
/// JSON-RPC error code for an invalid request.
pub const ERR_INVALID_REQUEST: i32 = -32600;

/// Protocol versions accepted on the version header.
pub open spec fn supported_versions() -> Seq<Seq<char>> {
    seq!["2025-06-18"@, "2025-03-26"@, "2025-11-25"@]
}

/// Origins naming the local machine.
pub open spec fn localhost_origin(o: Seq<char>) -> bool {
    o == "http://localhost"@ || o == "https://localhost"@ || o == "http://127.0.0.1"@
        || o == "https://127.0.0.1"@ || o == "http://[::1]"@ || o == "https://[::1]"@
        || text::starts_with(o, "http://localhost:"@) || text::starts_with(o, "https://localhost:"@)
        || text::starts_with(o, "http://127.0.0.1:"@) || text::starts_with(o, "https://127.0.0.1:"@)
        || text::starts_with(o, "http://[::1]:"@) || text::starts_with(o, "https://[::1]:"@)
}

/// Whether `v` begins with the characters of `p`.
fn has_prefix(v: &Vec<char>, p: &str) -> (b: bool)
    ensures
        b == text::starts_with(v@, p@),
{
    text::starts_with_exec(v, &text::chars_of(p))
}

/// True for `Origin` values pointing at the same machine.
pub fn is_localhost_origin(origin: &str) -> (b: bool)
    ensures
        b == localhost_origin(origin@),
{
    let eq = crate::json::str_eq;
    let v = text::chars_of(origin);
    eq(origin, "http://localhost") || eq(origin, "https://localhost") || eq(origin, "http://127.0.0.1")
        || eq(origin, "https://127.0.0.1") || eq(origin, "http://[::1]") || eq(origin, "https://[::1]")
        || has_prefix(&v, "http://localhost:") || has_prefix(&v, "https://localhost:")
        || has_prefix(&v, "http://127.0.0.1:") || has_prefix(&v, "https://127.0.0.1:")
        || has_prefix(&v, "http://[::1]:") || has_prefix(&v, "https://[::1]:")
}

/// The Origin policy: with no allowlist, a request without an Origin or
/// from the local machine passes; with one, the Origin must be listed.
/// `origin` is empty when the header is absent.
pub open spec fn origin_ok(origin: Seq<char>, allowed: Seq<Seq<char>>) -> bool {
    if allowed.len() == 0 {
        origin.len() == 0 || localhost_origin(origin)
    } else {
        allowed.contains(origin)
    }
}

/// Whether the Origin is accepted.
pub fn origin_allowed(origin: &str, allowed: &Vec<String>) -> (b: bool)
    ensures
        b == origin_ok(origin@, crate::ir::str_views(allowed@)),
{
    if allowed.len() == 0 {
        origin.is_empty() || is_localhost_origin(origin)
    } else {
        let mut i: usize = 0;
        while i < allowed.len()
            invariant
                i <= allowed.len(),
                forall|k: int| 0 <= k < i ==> allowed@[k]@ != origin@,
            decreases allowed.len() - i,
        {
            if crate::json::str_eq(allowed[i].as_str(), origin) {
                proof {
                    assert(crate::ir::str_views(allowed@)[i as int] == origin@);
                }
                return true;
            }
            i = i + 1;
        }
        proof {
            if crate::ir::str_views(allowed@).contains(origin@) {
                let k = choose|k: int| 0 <= k < allowed@.len() && crate::ir::str_views(allowed@)[k] == origin@;
                assert(allowed@[k]@ == origin@);
            }
        }
        false
    }
}

/// The body of the 403 answer to a refused Origin.
pub fn forbidden_message(origin: &str) -> (r: String)
    ensures
        r@ == "origin '"@ + origin@ + "' not allowed (configure with --spall-allowed-origin)"@,
{
    let mut m = String::from_str("origin '");
    m.append(origin);
    m.append("' not allowed (configure with --spall-allowed-origin)");
    m
}

/// What the verbose log shows for the allowlist decision.
pub open spec fn origin_outcome_of(origin: Seq<char>, allowlist_empty: bool, allowed: bool) -> Seq<char> {
    if allowlist_empty {
        if allowed { "<any>"@ } else { "rejected:remote-origin-with-empty-allowlist"@ }
    } else if allowed {
        origin
    } else {
        "rejected:not-in-allowlist"@
    }
}

/// The verbose log's view of the allowlist decision.
pub fn origin_outcome(origin: &str, allowlist_empty: bool, allowed: bool) -> (r: String)
    ensures
        r@ == origin_outcome_of(origin@, allowlist_empty, allowed),
{
    if allowlist_empty {
        if allowed { String::from_str("<any>") } else { String::from_str("rejected:remote-origin-with-empty-allowlist") }
    } else if allowed {
        origin.to_owned()
    } else {
        String::from_str("rejected:not-in-allowlist")
    }
}

/// Live sessions: id and last activity (milliseconds on a monotonic clock),
/// ids strictly increasing.
pub struct Sessions {
    pub entries: Vec<(String, u64)>,
}

/// The idle timeout in milliseconds.
pub open spec fn ttl_ms() -> int {
    SESSION_TTL_SECS * 1000
}

/// How long ago `last` was at `now` (zero for a later `last`).
pub open spec fn idle(now: u64, last: u64) -> int {
    if now >= last { now - last } else { 0 }
}

/// The activity time recorded for `sid`, if it is a session.
pub open spec fn last_seen(s: Seq<(String, u64)>, sid: Seq<char>) -> Option<u64>
    decreases s.len(),
{
    if s.len() == 0 {
        None
    } else if s[0].0@ == sid {
        Some(s[0].1)
    } else {
        last_seen(s.drop_first(), sid)
    }
}

/// Ids are unique.
pub open spec fn unique_ids(s: Seq<(String, u64)>) -> bool {
    forall|i: int, j: int| 0 <= i < j < s.len() ==> s[i].0@ != s[j].0@
}

/// The outcome of the session gate for `sid` at `now`.
pub open spec fn session_fresh(s: Seq<(String, u64)>, sid: Seq<char>, now: u64) -> bool {
    match last_seen(s, sid) {
        Some(t) => idle(now, t) < ttl_ms(),
        None => false,
    }
}

/// `last_seen` finds the entry for `sid` when there is one.
pub proof fn lemma_last_seen(s: Seq<(String, u64)>, sid: Seq<char>, i: int)
    requires
        unique_ids(s),
        0 <= i < s.len(),
        s[i].0@ == sid,
    ensures
        last_seen(s, sid) == Some(s[i].1),
    decreases s.len(),
{
    if i > 0 {
        let t = s.drop_first();
        assert(unique_ids(t)) by {
            assert forall|a: int, b: int| 0 <= a < b < t.len() implies t[a].0@ != t[b].0@ by {
                assert(t[a] == s[a + 1] && t[b] == s[b + 1]);
            }
        }
        assert(s[0].0@ != s[i].0@);
        lemma_last_seen(t, sid, i - 1);
    }
}

/// `last_seen` is `None` when no entry has id `sid`.
pub proof fn lemma_last_seen_none(s: Seq<(String, u64)>, sid: Seq<char>)
    requires
        forall|k: int| 0 <= k < s.len() ==> s[k].0@ != sid,
    ensures
        last_seen(s, sid) is None,
    decreases s.len(),
{
    if s.len() > 0 {
        let t = s.drop_first();
        assert forall|k: int| 0 <= k < t.len() implies t[k].0@ != sid by {
            assert(t[k] == s[k + 1]);
        }
        lemma_last_seen_none(t, sid);
    }
}

impl Sessions {
    /// Ids are unique.
    pub open spec fn wf(&self) -> bool {
        unique_ids(self.entries@)
    }

    /// No sessions.
    pub fn new() -> (r: Sessions)
        ensures
            r.entries@.len() == 0,
            r.wf(),
    {
        Sessions { entries: Vec::new() }
    }

    /// Index of session `sid`.
    fn find(&self, sid: &str) -> (r: Option<usize>)
        requires
            self.wf(),
        ensures
            match r {
                Some(i) => i < self.entries@.len() && self.entries@[i as int].0@ == sid@
                    && last_seen(self.entries@, sid@) == Some(self.entries@[i as int].1),
                None => last_seen(self.entries@, sid@) is None,
            },
    {
        let mut i: usize = 0;
        while i < self.entries.len()
            invariant
                i <= self.entries.len(),
                unique_ids(self.entries@),
                forall|k: int| 0 <= k < i ==> self.entries@[k].0@ != sid@,
            decreases self.entries.len() - i,
        {
            if crate::json::str_eq(self.entries[i].0.as_str(), sid) {
                proof {
                    lemma_last_seen(self.entries@, sid@, i as int);
                }
                return Some(i);
            }
            i = i + 1;
        }
        proof {
            lemma_last_seen_none(self.entries@, sid@);
        }
        None
    }

    /// The session gate: a session whose last activity is less than the
    /// idle timeout ago passes and is refreshed to `now`; an expired one
    /// is dropped; an unknown one fails.
    pub fn check(&mut self, sid: &str, now: u64) -> (ok: bool)
        requires
            old(self).wf(),
        ensures
            final(self).wf(),
            ok == session_fresh(old(self).entries@, sid@, now),
            ok ==> last_seen(final(self).entries@, sid@) == Some(now),
            !ok ==> last_seen(final(self).entries@, sid@) is None,
            forall|k: Seq<char>| k != sid@ ==> last_seen(final(self).entries@, k) == last_seen(old(self).entries@, k),
    {
        match self.find(sid) {
            Some(i) => {
                let last = self.entries[i].1;
                let fresh = if now >= last { now - last < SESSION_TTL_SECS * 1000 } else { true };
                let ghost before = self.entries@;
                let (id, _) = self.entries.remove(i);
                if fresh {
                    self.entries.insert(i, (id, now));
                    proof {
                            self.lemma_update_keeps(before, i as int, now);
                    }
                } else {
                    proof {
                        self.lemma_remove_keeps(before, i as int);
                    }
                }
                fresh
            }
            None => false,
        }
    }

    /// Updating one entry's time keeps ids unique and other lookups.
    proof fn lemma_update_keeps(&self, before: Seq<(String, u64)>, i: int, now: u64)
        requires
            unique_ids(before),
            0 <= i < before.len(),
            self.entries@.len() == before.len(),
            self.entries@[i].0@ == before[i].0@,
            self.entries@[i].1 == now,
            forall|j: int| 0 <= j < before.len() && j != i ==> self.entries@[j] == before[j],
        ensures
            unique_ids(self.entries@),
            last_seen(self.entries@, before[i].0@) == Some(now),
            forall|k: Seq<char>| k != before[i].0@ ==> last_seen(self.entries@, k) == last_seen(before, k),
    {
        let s = self.entries@;
        assert(unique_ids(s)) by {
            assert forall|a: int, b: int| 0 <= a < b < s.len() implies s[a].0@ != s[b].0@ by {
                assert(s[a].0@ == before[a].0@ && s[b].0@ == before[b].0@);
            }
        }
        lemma_last_seen(s, before[i].0@, i);
        assert forall|k: Seq<char>| k != before[i].0@ implies last_seen(s, k) == last_seen(before, k) by {
            if exists|j: int| 0 <= j < before.len() && before[j].0@ == k {
                let j = choose|j: int| 0 <= j < before.len() && before[j].0@ == k;
                lemma_last_seen(before, k, j);
                assert(s[j] == before[j]);
                lemma_last_seen(s, k, j);
            } else {
                lemma_last_seen_none(before, k);
                assert forall|j: int| 0 <= j < s.len() implies s[j].0@ != k by {
                    assert(s[j].0@ == before[j].0@);
                }
                lemma_last_seen_none(s, k);
            }
        }
    }

    /// Removing one entry keeps ids unique and other lookups.
    proof fn lemma_remove_keeps(&self, before: Seq<(String, u64)>, i: int)
        requires
            unique_ids(before),
            0 <= i < before.len(),
            self.entries@ == before.remove(i),
        ensures
            unique_ids(self.entries@),
            last_seen(self.entries@, before[i].0@) is None,
            forall|k: Seq<char>| k != before[i].0@ ==> last_seen(self.entries@, k) == last_seen(before, k),
    {
        let s = self.entries@;
        assert forall|j: int| 0 <= j < s.len() implies s[j] == (if j < i { before[j] } else { before[j + 1] }) by {}
        assert(unique_ids(s)) by {
            assert forall|a: int, b: int| 0 <= a < b < s.len() implies s[a].0@ != s[b].0@ by {
                assert(s[a] == (if a < i { before[a] } else { before[a + 1] }));
                assert(s[b] == (if b < i { before[b] } else { before[b + 1] }));
            }
        }
        assert forall|j: int| 0 <= j < s.len() implies s[j].0@ != before[i].0@ by {
            assert(s[j] == (if j < i { before[j] } else { before[j + 1] }));
        }
        lemma_last_seen_none(s, before[i].0@);
        assert forall|k: Seq<char>| k != before[i].0@ implies last_seen(s, k) == last_seen(before, k) by {
            if exists|j: int| 0 <= j < before.len() && before[j].0@ == k {
                let j = choose|j: int| 0 <= j < before.len() && before[j].0@ == k;
                lemma_last_seen(before, k, j);
                let j2 = if j < i { j } else { j - 1 };
                assert(j != i);
                assert(s[j2] == before[j]);
                lemma_last_seen(s, k, j2);
            } else {
                lemma_last_seen_none(before, k);
                assert forall|j: int| 0 <= j < s.len() implies s[j].0@ != k by {
                    assert(s[j] == (if j < i { before[j] } else { before[j + 1] }));
                }
                lemma_last_seen_none(s, k);
            }
        }
    }

    /// Starts session `sid` at `now` (the id is fresh from the generator;
    /// an existing entry of that id is replaced).
    pub fn start(&mut self, sid: String, now: u64)
        requires
            old(self).wf(),
        ensures
            final(self).wf(),
            last_seen(final(self).entries@, sid@) == Some(now),
            forall|k: Seq<char>| k != sid@ ==> last_seen(final(self).entries@, k) == last_seen(old(self).entries@, k),
    {
        match self.find(sid.as_str()) {
            Some(i) => {
                let ghost before = self.entries@;
                self.entries.remove(i);
                self.entries.insert(i, (sid, now));
                proof {
                    self.lemma_update_keeps(before, i as int, now);
                }
            }
            None => {
                let ghost before = self.entries@;
                let ghost key = sid@;
                self.entries.push((sid, now));
                proof {
                    let s = self.entries@;
                    assert forall|k: int| 0 <= k < before.len() implies before[k].0@ != key by {
                        if before[k].0@ == key {
                            lemma_last_seen(before, key, k);
                        }
                    }
                    assert(unique_ids(s)) by {
                        assert forall|a: int, b: int| 0 <= a < b < s.len() implies s[a].0@ != s[b].0@ by {
                            if b == s.len() - 1 {
                                assert(s[a] == before[a]);
                                if before[a].0@ == key {
                                    lemma_last_seen(before, key, a);
                                }
                            } else {
                                assert(s[a] == before[a] && s[b] == before[b]);
                            }
                        }
                    }
                    lemma_last_seen(s, key, s.len() - 1);
                    assert(s == before.push(s[s.len() - 1]));
                    assert forall|k: Seq<char>| k != key implies last_seen(s, k) == last_seen(before, k) by {
                        lemma_last_seen_push(before, s[s.len() - 1], k);
                    }
                }
            }
        }
    }

    /// Ends session `sid` (idempotently).
    pub fn end(&mut self, sid: &str)
        requires
            old(self).wf(),
        ensures
            final(self).wf(),
            last_seen(final(self).entries@, sid@) is None,
            forall|k: Seq<char>| k != sid@ ==> last_seen(final(self).entries@, k) == last_seen(old(self).entries@, k),
    {
        match self.find(sid) {
            Some(i) => {
                let ghost before = self.entries@;
                self.entries.remove(i);
                proof {
                    self.lemma_remove_keeps(before, i as int);
                }
            }
            None => {}
        }
    }

    /// Drops every session idle for the timeout or longer at `now`.
    pub fn prune(&mut self, now: u64)
        requires
            old(self).wf(),
        ensures
            final(self).wf(),
            forall|k: Seq<char>| #[trigger] last_seen(final(self).entries@, k) == (match last_seen(old(self).entries@, k) {
                Some(t) => if idle(now, t) < ttl_ms() { Some(t) } else { None },
                None => None,
            }),
    {
        let ghost orig = self.entries@;
        let mut kept: Vec<(String, u64)> = Vec::new();
        let mut rest = Vec::new();
        std::mem::swap(&mut rest, &mut self.entries);
        let ghost all = rest@;
        let ghost mut k: int = 0;
        while rest.len() > 0
            invariant
                all == orig,
                unique_ids(orig),
                0 <= k <= orig.len(),
                rest@ == orig.subrange(k, orig.len() as int),
                unique_ids(kept@),
                forall|x: int| 0 <= x < kept@.len() ==> exists|y: int| 0 <= y < k && #[trigger] kept@[x] == orig[y],
                forall|y: int| 0 <= y < k ==> (idle(now, orig[y].1) < ttl_ms() <==> exists|x: int| 0 <= x < kept@.len() && #[trigger] kept@[x] == orig[y]),
            decreases rest.len(),
        {
            let e = rest.remove(0);
            proof {
                assert(e == orig[k]);
                assert(rest@ =~= orig.subrange(k + 1, orig.len() as int));
            }
            let fresh = if now >= e.1 { now - e.1 < SESSION_TTL_SECS * 1000 } else { true };
            if fresh {
                let ghost kb = kept@;
                kept.push(e);
                proof {
                    assert forall|a: int, b: int| 0 <= a < b < kept@.len() implies kept@[a].0@ != kept@[b].0@ by {
                        if b == kept@.len() - 1 {
                            assert(kept@[a] == kb[a]);
                            let y = choose|y: int| 0 <= y < k && #[trigger] kb[a] == orig[y];
                            assert(orig[y].0@ != orig[k].0@);
                        } else {
                            assert(kept@[a] == kb[a] && kept@[b] == kb[b]);
                        }
                    }
                    assert forall|x: int| 0 <= x < kept@.len() implies exists|y: int| 0 <= y < k + 1 && #[trigger] kept@[x] == orig[y] by {
                        if x < kb.len() {
                            assert(kept@[x] == kb[x]);
                        } else {
                            assert(kept@[x] == orig[k]);
                        }
                    }
                    assert forall|y: int| 0 <= y < k + 1 implies (idle(now, orig[y].1) < ttl_ms() <==> exists|x: int| 0 <= x < kept@.len() && #[trigger] kept@[x] == orig[y]) by {
                        if y < k {
                            if exists|x: int| 0 <= x < kb.len() && #[trigger] kb[x] == orig[y] {
                                let x = choose|x: int| 0 <= x < kb.len() && #[trigger] kb[x] == orig[y];
                                assert(kept@[x] == kb[x]);
                            }
                            if exists|x: int| 0 <= x < kept@.len() && #[trigger] kept@[x] == orig[y] {
                                let x = choose|x: int| 0 <= x < kept@.len() && #[trigger] kept@[x] == orig[y];
                                if x < kb.len() {
                                    assert(kept@[x] == kb[x]);
                                } else {
                                    assert(orig[y].0@ != orig[k].0@);
                                }
                            }
                        } else {
                            assert(kept@[kb.len() as int] == orig[k]);
                        }
                    }
                }
            } else {
                proof {
                    assert forall|y: int| 0 <= y < k + 1 implies (idle(now, orig[y].1) < ttl_ms() <==> exists|x: int| 0 <= x < kept@.len() && #[trigger] kept@[x] == orig[y]) by {
                        if y == k {
                            if exists|x: int| 0 <= x < kept@.len() && #[trigger] kept@[x] == orig[y] {
                                let x = choose|x: int| 0 <= x < kept@.len() && #[trigger] kept@[x] == orig[y];
                                let y2 = choose|y2: int| 0 <= y2 < k && #[trigger] kept@[x] == orig[y2];
                                assert(orig[y2].0@ != orig[k].0@);
                            }
                        }
                    }
                }
            }
            proof {
                k = k + 1;
            }
        }
        self.entries = kept;
        proof {
            let s = self.entries@;
            assert forall|key: Seq<char>| #[trigger] last_seen(s, key) == (match last_seen(orig, key) {
                Some(t) => if idle(now, t) < ttl_ms() { Some(t) } else { None },
                None => None,
            }) by {
                if exists|y: int| 0 <= y < orig.len() && orig[y].0@ == key {
                    let y = choose|y: int| 0 <= y < orig.len() && orig[y].0@ == key;
                    lemma_last_seen(orig, key, y);
                    if idle(now, orig[y].1) < ttl_ms() {
                        let x = choose|x: int| 0 <= x < s.len() && #[trigger] s[x] == orig[y];
                        lemma_last_seen(s, key, x);
                    } else {
                        assert forall|x: int| 0 <= x < s.len() implies s[x].0@ != key by {
                            let y2 = choose|y2: int| 0 <= y2 < orig.len() && #[trigger] s[x] == orig[y2];
                            if y2 != y {
                                assert(orig[y2].0@ != orig[y].0@);
                            }
                        }
                        lemma_last_seen_none(s, key);
                    }
                } else {
                    lemma_last_seen_none(orig, key);
                    assert forall|x: int| 0 <= x < s.len() implies s[x].0@ != key by {
                        let y2 = choose|y2: int| 0 <= y2 < orig.len() && #[trigger] s[x] == orig[y2];
                    }
                    lemma_last_seen_none(s, key);
                }
            }
        }
    }
}

/// Whether `version` is accepted on the protocol-version header.
pub fn version_supported(version: &str) -> (b: bool)
    ensures
        b == supported_versions().contains(version@),
{
    let eq = crate::json::str_eq;
    let r = eq(version, "2025-06-18") || eq(version, "2025-03-26") || eq(version, "2025-11-25");
    proof {
        if r {
            if version@ == "2025-06-18"@ {
                assert(supported_versions()[0] == version@);
            } else if version@ == "2025-03-26"@ {
                assert(supported_versions()[1] == version@);
            } else {
                assert(supported_versions()[2] == version@);
            }
        }
    }
    r
}

/// The protocol-version gate: an absent header passes (an older client);
/// a present one must be supported. The error carries the message.
pub open spec fn version_gate(version: Option<Seq<char>>) -> Result<(), Seq<char>> {
    match version {
        None => Ok(()),
        Some(v) => if supported_versions().contains(v) {
            Ok(())
        } else {
            Err("unsupported MCP-Protocol-Version '"@ + v + "'; supported: 2025-06-18, 2025-03-26, 2025-11-25"@)
        },
    }
}

/// Apply the protocol-version gate.
pub fn check_protocol_version(version: Option<&str>) -> (r: Result<(), String>)
    ensures
        match (r, version_gate(match version { Some(v) => Some(v@), None => None })) {
            (Ok(()), Ok(())) => true,
            (Err(m), Err(n)) => m@ == n,
            _ => false,
        },
{
    match version {
        None => Ok(()),
        Some(v) => {
            if version_supported(v) {
                Ok(())
            } else {
                let mut m = String::from_str("unsupported MCP-Protocol-Version '");
                m.append(v);
                m.append("'; supported: 2025-06-18, 2025-03-26, 2025-11-25");
                Err(m)
            }
        }
    }
}

/// How a POST is answered.
#[derive(PartialEq, Eq, Structural, Clone, Copy)]
pub enum ReplyShape {
    /// `202 Accepted`, no body: the frame needed no reply.
    Accepted,
    /// A `text/event-stream` body, one event per frame.
    EventStream,
    /// A JSON body carrying the last frame.
    JsonBody,
}

/// Whether the `Accept` header asks for an event stream.
pub open spec fn wants_event_stream(accept: Option<Seq<char>>) -> bool {
    match accept {
        Some(a) => text::contains(text::lower(a), "text/event-stream"@),
        None => false,
    }
}

/// The reply shape for `frames` reply frames and the `Accept` header.
pub open spec fn reply_shape_of(frames: nat, accept: Option<Seq<char>>) -> ReplyShape {
    if frames == 0 {
        ReplyShape::Accepted
    } else if wants_event_stream(accept) {
        ReplyShape::EventStream
    } else {
        ReplyShape::JsonBody
    }
}

/// Content-negotiate the reply to a POST.
pub fn reply_shape(frames: usize, accept: Option<&str>) -> (r: ReplyShape)
    ensures
        r == reply_shape_of(frames as nat, match accept { Some(a) => Some(a@), None => None }),
{
    if frames == 0 {
        return ReplyShape::Accepted;
    }
    let wants = match accept {
        Some(a) => {
            let l = text::lower_vec(&text::chars_of(a));
            text::contains_exec(&l, &text::chars_of("text/event-stream"))
        }
        None => false,
    };
    if wants { ReplyShape::EventStream } else { ReplyShape::JsonBody }
}

/// The JSON body of a reply: the last frame.
pub fn json_reply_body(frames: Vec<Json>) -> (r: Json)
    ensures
        frames@.len() == 0 ==> r@ == JsonV::Null,
        frames@.len() > 0 ==> r@ == frames@.last()@,
{
    let mut frames = frames;
    match frames.pop() {
        Some(f) => f,
        None => Json::Null,
    }
}

/// The message of the 400 answer to a request without a live session.
pub open spec fn session_error_msg() -> Seq<char> {
    "missing, expired, or invalid Mcp-Session-Id; call `initialize` first"@
}

/// The message of the 400 answer to a DELETE without a session id.
pub open spec fn delete_error_msg() -> Seq<char> {
    "missing or empty Mcp-Session-Id; DELETE requires the session id to terminate"@
}

/// The 400 envelope for a request without a live session.
pub fn session_error(rpc_id: Json) -> (r: Json)
    ensures
        r@ == crate::mcp::rpc::error_envelope(rpc_id@, ERR_INVALID_REQUEST, session_error_msg()),
{
    crate::mcp::rpc::rpc_error(rpc_id, ERR_INVALID_REQUEST, "missing, expired, or invalid Mcp-Session-Id; call `initialize` first")
}

/// The 400 envelope for a DELETE without a session id.
pub fn delete_error() -> (r: Json)
    ensures
        r@ == crate::mcp::rpc::error_envelope(JsonV::Null, ERR_INVALID_REQUEST, delete_error_msg()),
{
    crate::mcp::rpc::rpc_error(Json::Null, ERR_INVALID_REQUEST, "missing or empty Mcp-Session-Id; DELETE requires the session id to terminate")
}

/// Sixteen random bytes from the thread RNG. Nothing is claimed of their
/// values beyond the count.
#[verifier::external_body]
fn random_16() -> (r: Vec<u8>)
    ensures
        r@.len() == 16,
{
    let mut bytes = [0u8; 16];
    rand::RngCore::fill_bytes(&mut rand::thread_rng(), &mut bytes);
    bytes.to_vec()
}

/// A fresh session id: 128 random bits as 32 lowercase hex characters.
pub fn new_session_id() -> (r: String)
    ensures
        r@.len() == 32,
        forall|i: int| 0 <= i < r@.len() ==> ('0' <= #[trigger] r@[i] <= '9' || 'a' <= r@[i] <= 'f'),
{
    let b = random_16();
    let s = crate::fetch::to_hex(b.as_slice());
    proof {
        crate::fetch::lemma_hex_digits(b@);
    }
    s
}


/// Appending a session leaves the others' activity times as they were.
pub proof fn lemma_last_seen_push(s: Seq<(String, u64)>, e: (String, u64), k: Seq<char>)
    requires
        e.0@ != k,
    ensures
        last_seen(s.push(e), k) == last_seen(s, k),
    decreases s.len(),
{
    if s.len() == 0 {
        assert(s.push(e)[0] == e);
        assert(s.push(e).drop_first() =~= Seq::<(String, u64)>::empty());
        assert(last_seen(Seq::<(String, u64)>::empty(), k) is None);
    } else {
        assert(s.push(e)[0] == s[0]);
        assert(s.push(e).drop_first() =~= s.drop_first().push(e));
        lemma_last_seen_push(s.drop_first(), e, k);
    }
}

/// A session is accepted at the moment it was started or last seen.
pub proof fn law_session_fresh_when_just_seen(s: Seq<(String, u64)>, sid: Seq<char>, now: u64)
    requires
        last_seen(s, sid) == Some(now),
    ensures
        session_fresh(s, sid, now),
{
}

/// An ended (or unknown) session is never accepted.
pub proof fn law_unknown_session_fails(s: Seq<(String, u64)>, sid: Seq<char>, now: u64)
    requires
        last_seen(s, sid) is None,
    ensures
        !session_fresh(s, sid, now),
{
}

/// How the checks ahead of an HTTP JSON-RPC request answer: a `400 Bad Request` with this
/// JSON-RPC error body, or on to the frame's dispatch (`initialize` then
/// mints a session).
pub enum PostGate {
    Reject(Json),
    Dispatch { initialize: bool },
}

/// What the POST gate decides, as plain values.
pub enum PostGateV {
    Reject(JsonV),
    Dispatch { initialize: bool },
}

/// The view of a gate decision.
pub open spec fn post_gate_view(g: PostGate) -> PostGateV {
    match g {
        PostGate::Reject(j) => PostGateV::Reject(j@),
        PostGate::Dispatch { initialize } => PostGateV::Dispatch { initialize },
    }
}

/// The checks ahead of an HTTP JSON-RPC request with `body`, given whether the session named
/// by the `Mcp-Session-Id` header is live (`fresh`) and the
/// `MCP-Protocol-Version` header: a body that is not JSON gets a parse
/// error; `initialize` passes; any other frame needs a live session (else
/// the session error, with the frame's `id`) and, after that, a supported
/// protocol version (else that error, with the frame's `id`).
pub open spec fn post_gate_of(body: Seq<char>, fresh: bool, version: Option<Seq<char>>) -> PostGateV {
    match crate::json::json_parsed(body) {
        Err(_) => PostGateV::Reject(crate::mcp::rpc::error_envelope(JsonV::Null, crate::mcp::rpc::ERR_PARSE, "Parse error"@)),
        Ok(m) => if crate::mcp::rpc::method_of(m) == "initialize"@ {
            PostGateV::Dispatch { initialize: true }
        } else {
            let id = match m.get("id"@) {
                Some(i) => i,
                None => JsonV::Null,
            };
            if !fresh {
                PostGateV::Reject(crate::mcp::rpc::error_envelope(id, ERR_INVALID_REQUEST, session_error_msg()))
            } else {
                match version_gate(version) {
                    Ok(()) => PostGateV::Dispatch { initialize: false },
                    Err(msg) => PostGateV::Reject(crate::mcp::rpc::error_envelope(id, ERR_INVALID_REQUEST, msg)),
                }
            }
        },
    }
}

/// Whether a body is a JSON frame whose method is not `initialize`, the
/// frames that go through the session gate.
pub open spec fn session_gated(body: Seq<char>) -> bool {
    match crate::json::json_parsed(body) {
        Ok(m) => crate::mcp::rpc::method_of(m) != "initialize"@,
        Err(_) => false,
    }
}

/// The checks ahead of an HTTP JSON-RPC request (see `post_gate_of`). The session named by
/// `sid` (none counts as the empty id) is checked only for a frame that
/// needs it, and then as `Sessions::check` does: a live one is refreshed
/// to `now`, an expired one dropped.
pub fn post_gate(body: &str, sid: Option<&str>, version: Option<&str>, sessions: &mut Sessions, now: u64) -> (r: PostGate)
    requires
        old(sessions).wf(),
    ensures
        final(sessions).wf(),
        ({
            let s = match sid { Some(x) => x@, None => Seq::<char>::empty() };
            &&& post_gate_view(r) == post_gate_of(body@, session_fresh(old(sessions).entries@, s, now),
                match version { Some(v) => Some(v@), None => None })
            &&& session_gated(body@) && session_fresh(old(sessions).entries@, s, now) ==> last_seen(final(sessions).entries@, s) == Some(now)
            &&& session_gated(body@) && !session_fresh(old(sessions).entries@, s, now) ==> last_seen(final(sessions).entries@, s) is None
            &&& session_gated(body@) ==> forall|k: Seq<char>| k != s ==> last_seen(final(sessions).entries@, k) == last_seen(old(sessions).entries@, k)
            &&& !session_gated(body@) ==> final(sessions).entries@ == old(sessions).entries@
        }),
{
    let msg = match crate::json::parse_json(body) {
        Ok(m) => m,
        Err(_) => return PostGate::Reject(crate::mcp::rpc::rpc_error(Json::Null, crate::mcp::rpc::ERR_PARSE, "Parse error")),
    };
    let method: &str = match msg.get("method") {
        Some(Json::Str(m)) => m.as_str(),
        _ => "",
    };
    proof {
        reveal_strlit("");
        assert(method@ == crate::mcp::rpc::method_of(msg@));
    }
    if crate::json::str_eq(method, "initialize") {
        return PostGate::Dispatch { initialize: true };
    }
    let id = match msg.get("id") {
        Some(i) => crate::json::copy_json(i),
        None => Json::Null,
    };
    let s: &str = match sid {
        Some(x) => x,
        None => "",
    };
    proof {
        reveal_strlit("");
        assert(id@ == match msg@.get("id"@) { Some(i) => i, None => JsonV::Null });
        assert(s@ == match sid { Some(x) => x@, None => Seq::<char>::empty() });
        assert(session_gated(body@));
    }
    if !sessions.check(s, now) {
        return PostGate::Reject(session_error(id));
    }
    match check_protocol_version(version) {
        Ok(()) => PostGate::Dispatch { initialize: false },
        Err(m) => PostGate::Reject(crate::mcp::rpc::rpc_error(id, ERR_INVALID_REQUEST, m.as_str())),
    }
}

} // verus!
