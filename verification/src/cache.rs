//! The translation cache's side that is decided here: how an entry is keyed,
//! what it costs, and when entries must go. The store itself is a database
//! file that the application reads and writes.

use vstd::prelude::*;
use vstd::string::StringSliceAdditionalSpecFns;
use vstd::bytes::{lemma_auto_spec_u64_to_from_le_bytes, spec_u64_from_le_bytes, spec_u64_to_le_bytes, u64_to_le_bytes};

verus! {

/// Name for the SHA-256 digest of `data`, as `sha2::Sha256` computes it.
pub uninterp spec fn sha256_digest(data: Seq<u8>) -> Seq<u8>;

/// `sha2::Sha256::digest(data)`: the 32-byte SHA-256 digest of `data`.
#[verifier::external_body]
fn sha256(data: &[u8]) -> (r: [u8; 32])
    ensures
        r@ == sha256_digest(data@),
{
    <sha2::Sha256 as sha2::Digest>::digest(data).into()
}

/// The hashed message of a key: each part as its UTF-8 byte length, eight
/// bytes little-endian, then its bytes.
pub open spec fn key_message(parts: Seq<Seq<u8>>) -> Seq<u8>
    decreases parts.len(),
{
    if parts.len() == 0 {
        Seq::empty()
    } else {
        spec_u64_to_le_bytes(parts[0].len() as u64) + parts[0] + key_message(parts.drop_first())
    }
}

/// The UTF-8 bytes of each part.
pub open spec fn part_bytes(parts: Seq<&str>) -> Seq<Seq<u8>> {
    Seq::new(parts.len(), |i: int| parts[i].spec_bytes())
}

/// The cache budget; the entries themselves live in the cache database.
pub struct Cache {
    max_bytes: u64,
}

impl Cache {
    /// The budget in bytes.
    pub closed spec fn limit(&self) -> u64 {
        self.max_bytes
    }

    /// A cache that may hold `max_bytes` bytes of keys and values.
    pub fn new(max_bytes: u64) -> (r: Cache)
        ensures
            r.limit() == max_bytes,
    {
        Cache { max_bytes }
    }

    /// The budget in bytes.
    pub fn max_bytes(&self) -> (r: u64)
        ensures
            r == self.limit(),
    {
        self.max_bytes
    }

    /// The key of an entry: the SHA-256 digest of the parts, each framed by
    /// its length, so that no two different part lists share a message.
    pub fn key(parts: &[&str]) -> (r: [u8; 32])
        ensures
            r@ == sha256_digest(key_message(part_bytes(parts@))),
    {
        let ghost all = part_bytes(parts@);
        let mut message: Vec<u8> = Vec::new();
        let n = parts.len();
        let mut i: usize = 0;
        assert(all.skip(0) =~= all);
        while i < n
            invariant
                i <= n,
                n == parts@.len(),
                all == part_bytes(parts@),
                key_message(all) == message@ + key_message(all.skip(i as int)),
            decreases n - i,
        {
            let part = parts[i];
            let bytes = part.as_bytes();
            let len = bytes.len() as u64;
            let ghost rest = all.skip(i as int);
            assert(rest[0] == bytes@);
            assert(rest.drop_first() =~= all.skip(i + 1));
            let ghost before = message@;
            let mut framing = u64_to_le_bytes(len);
            message.append(&mut framing);
            message.extend_from_slice(bytes);
            assert(message@ =~= before + (spec_u64_to_le_bytes(rest[0].len() as u64) + rest[0]));
            i = i + 1;
        }
        assert(all.skip(n as int) =~= Seq::<Seq<u8>>::empty());
        assert(message@ + Seq::<u8>::empty() =~= message@);
        sha256(message.as_slice())
    }

    /// What an entry costs: the bytes of its value and of its key.
    pub fn entry_size(key: &[u8], value: &str) -> (r: i64)
        requires
            key@.len() + value.len() <= i64::MAX,
        ensures
            r == key@.len() + value.len(),
    {
        value.len() as i64 + key.len() as i64
    }

    /// Whether an entry of `size` bytes may be stored at all; a larger one is
    /// not stored.
    pub fn admits(&self, size: i64) -> (r: bool)
        requires
            size >= 0,
        ensures
            r == (size <= self.limit()),
    {
        !(size as u64 > self.max_bytes)
    }

    /// Whether a cache holding `total` bytes must drop its least recently used
    /// entry: it holds more than the budget.
    pub fn over_budget(&self, total: i64) -> (r: bool)
        ensures
            r == (total > self.limit()),
    {
        total > 0 && total as u64 > self.max_bytes
    }
}

/// `total - removed`, saturating at the ends of `i64`.
pub open spec fn saturating_diff(total: int, removed: int) -> int {
    if total - removed > i64::MAX {
        i64::MAX as int
    } else if total - removed < i64::MIN {
        i64::MIN as int
    } else {
        total - removed
    }
}

/// What the cache holds after an entry of `removed` bytes leaves a total of
/// `total` bytes: the difference, saturating at the ends of `i64`.
pub fn after_removal(total: i64, removed: i64) -> (r: i64)
    ensures
        r == saturating_diff(total as int, removed as int),
{
    let d = total as i128 - removed as i128;
    if d > i64::MAX as i128 {
        i64::MAX
    } else if d < i64::MIN as i128 {
        i64::MIN
    } else {
        d as i64
    }
}

/// The sum of `sizes`.
pub open spec fn total_size(sizes: Seq<i64>) -> int
    decreases sizes.len(),
{
    if sizes.len() == 0 {
        0
    } else {
        sizes[0] + total_size(sizes.drop_first())
    }
}

/// How many entries the eviction loop removes from a cache with budget
/// `limit` that holds `total` bytes in entries of `sizes`, least recently
/// used first: while [`Cache::over_budget`] holds and an entry is left, the
/// oldest goes and [`after_removal`] gives the new total.
pub open spec fn evictions(limit: u64, total: i64, sizes: Seq<i64>) -> nat
    decreases sizes.len(),
{
    if total > limit && sizes.len() > 0 {
        1 + evictions(limit, saturating_diff(total as int, sizes[0] as int) as i64, sizes.drop_first())
    } else {
        0
    }
}

/// Least recently used entries go first, and only as many as the budget
/// needs: for a total that is the sum of the entries' sizes, the entries left
/// after the eviction loop fit the budget, and every shorter run of
/// evictions would have left too much.
pub proof fn law_eviction_keeps_budget(limit: u64, sizes: Seq<i64>)
    requires
        forall|i: int| 0 <= i < sizes.len() ==> #[trigger] sizes[i] >= 0,
        total_size(sizes) <= i64::MAX,
    ensures
        evictions(limit, total_size(sizes) as i64, sizes) <= sizes.len(),
        total_size(sizes.skip(evictions(limit, total_size(sizes) as i64, sizes) as int)) <= limit,
        forall|j: int| 0 <= j < evictions(limit, total_size(sizes) as i64, sizes) ==> total_size(#[trigger] sizes.skip(j)) > limit,
    decreases sizes.len(),
{
    lemma_total_size_nonnegative(sizes);
    let total = total_size(sizes);
    assert(sizes.skip(0) =~= sizes);
    if sizes.len() > 0 && total > limit {
        let rest = sizes.drop_first();
        assert forall|i: int| 0 <= i < rest.len() implies #[trigger] rest[i] >= 0 by {
            assert(rest[i] == sizes[i + 1]);
        }
        lemma_total_size_nonnegative(rest);
        law_eviction_keeps_budget(limit, rest);
        let k = evictions(limit, total_size(rest) as i64, rest);
        assert(evictions(limit, total as i64, sizes) == 1 + k);
        assert(sizes.skip(1 + k as int) =~= rest.skip(k as int));
        assert forall|j: int| 0 <= j < 1 + k implies total_size(#[trigger] sizes.skip(j)) > limit by {
            if j > 0 {
                assert(sizes.skip(j) =~= rest.skip(j - 1));
            }
        }
    }
}

/// A sum of non-negative sizes is non-negative.
proof fn lemma_total_size_nonnegative(sizes: Seq<i64>)
    requires
        forall|i: int| 0 <= i < sizes.len() ==> #[trigger] sizes[i] >= 0,
    ensures
        total_size(sizes) >= 0,
    decreases sizes.len(),
{
    if sizes.len() > 0 {
        let rest = sizes.drop_first();
        assert forall|i: int| 0 <= i < rest.len() implies #[trigger] rest[i] >= 0 by {
            assert(rest[i] == sizes[i + 1]);
        }
        lemma_total_size_nonnegative(rest);
    }
}

/// Two different lists of parts never share a key message (for parts shorter
/// than 2^64 bytes).
pub proof fn law_key_message_injective(a: Seq<Seq<u8>>, b: Seq<Seq<u8>>)
    requires
        forall|i: int| 0 <= i < a.len() ==> #[trigger] a[i].len() <= u64::MAX,
        forall|i: int| 0 <= i < b.len() ==> #[trigger] b[i].len() <= u64::MAX,
        key_message(a) == key_message(b),
    ensures
        a == b,
    decreases a.len(),
{
    lemma_auto_spec_u64_to_from_le_bytes();
    if a.len() == 0 {
        if b.len() > 0 {
            assert(key_message(b).len() >= 8);
        }
        assert(a =~= b);
    } else {
        if b.len() == 0 {
            assert(key_message(a).len() >= 8);
        }
        let ma = key_message(a);
        let la = spec_u64_to_le_bytes(a[0].len() as u64);
        let lb = spec_u64_to_le_bytes(b[0].len() as u64);
        assert(ma.take(8) =~= la);
        assert(key_message(b).take(8) =~= lb);
        assert(spec_u64_from_le_bytes(la) == spec_u64_from_le_bytes(lb));
        assert(a[0].len() == b[0].len());
        let k = a[0].len();
        assert(ma.subrange(8, 8 + k as int) =~= a[0]);
        assert(key_message(b).subrange(8, 8 + k as int) =~= b[0]);
        assert(ma.skip(8 + k as int) =~= key_message(a.drop_first()));
        assert(key_message(b).skip(8 + k as int) =~= key_message(b.drop_first()));
        law_key_message_injective(a.drop_first(), b.drop_first());
        assert(a =~= seq![a[0]] + a.drop_first());
        assert(b =~= seq![b[0]] + b.drop_first());
    }
}

/// Milliseconds since the Unix epoch by the system clock
/// (`SystemTime::now().duration_since(UNIX_EPOCH)`), zero for a clock set
/// before the epoch. Nothing is promised of the value: it is the time.
#[verifier::external_body]
fn clock_millis() -> u128 {
    std::time::SystemTime::now().duration_since(std::time::UNIX_EPOCH).unwrap_or_default().as_millis()
}

/// The access time stamped on cache entries: the clock in milliseconds,
/// cut to 64 bits.
pub fn timestamp() -> i64 {
    let millis = clock_millis();
    millis as i64
}

} // verus!
