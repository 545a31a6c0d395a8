//! Spec loading: which sources are remote, the raw-cache freshness rule
//! and cache file names.

use vstd::prelude::*;
use crate::text;
use crate::error::SpallCliError;

verus! {

/// How long a fetched spec stays fresh, in seconds.
pub const RAW_CACHE_TTL_SECS: u64 = 3600;

/// Lowercase hexadecimal digit for a value below 16.
pub open spec fn hex_digit(n: nat) -> char {
    if n < 10 { (('0' as u32) + n) as char } else { (('a' as u32) + n - 10) as char }
}

/// Two lowercase hex digits per byte.
pub open spec fn hex_of(bytes: Seq<u8>) -> Seq<char>
    decreases bytes.len(),
{
    if bytes.len() == 0 {
        seq![]
    } else {
        hex_of(bytes.drop_last()) + seq![hex_digit((bytes.last() / 16) as nat), hex_digit((bytes.last() % 16) as nat)]
    }
}

/// Lowercase hexadecimal digit for a value below 16.
fn hex_digit_exec(n: u8) -> (c: char)
    requires
        n < 16,
    ensures
        c == hex_digit(n as nat),
{
    if n < 10 {
        ((('0' as u8) + n) as char)
    } else {
        ((('a' as u8) + n - 10) as char)
    }
}

/// Lowercase hex encoding of bytes.
pub fn to_hex(bytes: &[u8]) -> (s: String)
    ensures
        s@ == hex_of(bytes@),
        s@.len() == 2 * bytes@.len(),
{
    let mut s = String::new();
    let mut i: usize = 0;
    while i < bytes.len()
        invariant
            i <= bytes.len(),
            s@ == hex_of(bytes@.subrange(0, i as int)),
            s@.len() == 2 * i,
        decreases bytes.len() - i,
    {
        let b = bytes[i];
        text::push_char(&mut s, hex_digit_exec(b / 16));
        text::push_char(&mut s, hex_digit_exec(b % 16));
        proof {
            let t = bytes@.subrange(0, i + 1);
            assert(t.drop_last() =~= bytes@.subrange(0, i as int));
            assert(t.last() == b);
        }
        i = i + 1;
    }
    proof {
        assert(bytes@.subrange(0, i as int) =~= bytes@);
    }
    s
}

/// The current time in seconds since the Unix epoch (0 if the clock is
/// before it). Nothing is claimed of the value: it is the machine's clock.
#[verifier::external_body]
pub(crate) fn now_secs() -> (r: u64) {
    std::time::SystemTime::now().duration_since(std::time::UNIX_EPOCH).unwrap_or_default().as_secs()
}

/// Whether a spec source is a URL rather than a file path.
pub open spec fn is_remote(source: Seq<char>) -> bool {
    text::starts_with(source, "http://"@) || text::starts_with(source, "https://"@)
}

/// Whether a spec source is a URL.
pub fn is_remote_source(source: &str) -> (b: bool)
    ensures
        b == is_remote(source@),
{
    let v = text::chars_of(source);
    text::starts_with_exec(&v, &text::chars_of("http://")) || text::starts_with_exec(&v, &text::chars_of("https://"))
}

/// A refresh is only meaningful for a remote source.
pub fn check_refreshable(source: &str) -> (r: Result<(), SpallCliError>)
    ensures
        is_remote(source@) ==> r is Ok,
        !is_remote(source@) ==> (r matches Err(SpallCliError::Usage(m)) && m@ == "refresh only applies to remote specs: "@ + source@),
{
    if is_remote_source(source) {
        Ok(())
    } else {
        Err(SpallCliError::Usage(String::from_str("refresh only applies to remote specs: ").concat(source)))
    }
}

/// Cache metadata for a fetched spec.
pub struct RawMeta {
    pub etag: Option<String>,
    pub fetched_at: u64,
    pub expires_at: u64,
}

/// What to do when loading a remote spec.
pub enum FetchPlan {
    /// Serve the cached bytes.
    UseCache,
    /// Ask the server whether the cached copy is still current.
    ConditionalGet,
    /// Fetch the spec anew.
    Fetch,
}

/// The plan for a remote spec: the cache while fresh, a conditional GET
/// once stale, a plain fetch without a cached copy or readable metadata.
pub open spec fn fetch_plan_of(cached: bool, meta: Option<RawMeta>, now: u64) -> FetchPlan {
    if !cached {
        FetchPlan::Fetch
    } else {
        match meta {
            Some(m) => if now < m.expires_at { FetchPlan::UseCache } else { FetchPlan::ConditionalGet },
            None => FetchPlan::Fetch,
        }
    }
}

/// Decide how to load a remote spec.
pub fn fetch_plan(cached: bool, meta: &Option<RawMeta>, now: u64) -> (r: FetchPlan)
    ensures
        r == fetch_plan_of(cached, *meta, now),
{
    if !cached {
        return FetchPlan::Fetch;
    }
    match meta {
        Some(m) => if now < m.expires_at { FetchPlan::UseCache } else { FetchPlan::ConditionalGet },
        None => FetchPlan::Fetch,
    }
}

/// Metadata for bytes fetched at `now`: fresh for the cache TTL.
pub fn fresh_meta(etag: Option<String>, now: u64) -> (r: RawMeta)
    requires
        now + RAW_CACHE_TTL_SECS <= u64::MAX,
    ensures
        r.etag == etag,
        r.fetched_at == now,
        r.expires_at == now + RAW_CACHE_TTL_SECS,
{
    RawMeta { etag, fetched_at: now, expires_at: now + RAW_CACHE_TTL_SECS }
}

/// Metadata after a `304 Not Modified`: same ETag and fetch time, fresh
/// again from `now`.
pub fn revalidated_meta(meta: &RawMeta, now: u64) -> (r: RawMeta)
    requires
        now + RAW_CACHE_TTL_SECS <= u64::MAX,
    ensures
        r.etag == meta.etag,
        r.fetched_at == meta.fetched_at,
        r.expires_at == now + RAW_CACHE_TTL_SECS,
{
    RawMeta { etag: meta.etag.clone(), fetched_at: meta.fetched_at, expires_at: now + RAW_CACHE_TTL_SECS }
}

/// The cache file name of a source with hash `hash`: its hex and `.raw`.
pub fn raw_file_name(hash: &[u8]) -> (r: String)
    ensures
        r@ == hex_of(hash@) + ".raw"@,
{
    to_hex(hash).concat(".raw")
}

/// The metadata file name of a source with hash `hash`.
pub fn raw_meta_file_name(hash: &[u8]) -> (r: String)
    ensures
        r@ == hex_of(hash@) + ".raw-meta"@,
{
    to_hex(hash).concat(".raw-meta")
}

/// Hex text holds only lowercase hex digits.
pub proof fn lemma_hex_digits(bytes: Seq<u8>)
    ensures
        hex_of(bytes).len() == 2 * bytes.len(),
        forall|i: int| 0 <= i < hex_of(bytes).len() ==> ('0' <= #[trigger] hex_of(bytes)[i] <= '9' || 'a' <= hex_of(bytes)[i] <= 'f'),
    decreases bytes.len(),
{
    if bytes.len() > 0 {
        lemma_hex_digits(bytes.drop_last());
        let p = hex_of(bytes.drop_last());
        let h = hex_of(bytes);
        assert forall|i: int| 0 <= i < h.len() implies ('0' <= #[trigger] h[i] <= '9' || 'a' <= h[i] <= 'f') by {
            if i < p.len() {
                assert(h[i] == p[i]);
            }
        }
    }
}

} // verus!
