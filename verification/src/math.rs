//! The correspondence hash used to detect oscillating ICP iterations.

use vstd::prelude::*;

verus! {

/// Numeric code of one correspondence entry: `j1 + 1000 * j2` reinterpreted
/// as an unsigned 32-bit word, or all ones for a missing correspondence.
pub open spec fn entry_code(entry: Option<(i32, i32)>) -> u32 {
    match entry {
        Some((j1, j2)) => (j1 + 1000 * j2) as u32,
        None => 0xFFFF_FFFFu32,
    }
}

/// An entry whose code can be computed without leaving the `i32` range.
pub open spec fn entry_fits(entry: Option<(i32, i32)>) -> bool {
    match entry {
        Some((j1, j2)) => {
            &&& i32::MIN <= 1000 * j2 <= i32::MAX
            &&& i32::MIN <= j1 + 1000 * j2 <= i32::MAX
        },
        None => true,
    }
}

/// One mixing round of the hash: even positions shift left by 7 and right by
/// 3, odd positions shift by 11 and 5 and complement the mixed word.
pub open spec fn mix(hash: u32, index: int, code: u32) -> u32 {
    if index % 2 == 0 {
        hash ^ ((hash << 7u32) ^ code ^ (hash >> 3u32))
    } else {
        hash ^ !((hash << 11u32) ^ code ^ (hash >> 5u32))
    }
}

/// The hash state after mixing the first `n` entries.
pub open spec fn hash_prefix(entries: Seq<Option<(i32, i32)>>, n: nat) -> u32
    decreases n,
{
    if n == 0 {
        0
    } else {
        mix(hash_prefix(entries, (n - 1) as nat), n - 1, entry_code(entries[n - 1]))
    }
}

/// The hash of a whole correspondence set, cleared of its top bit.
pub open spec fn corr_hash_of(entries: Seq<Option<(i32, i32)>>) -> u32 {
    hash_prefix(entries, entries.len()) & 0x7FFF_FFFFu32
}

/// Hash of a correspondence set, used for oscillation detection.
/// Each entry is `Some((j1, j2))` for a valid correspondence, `None` otherwise.
/// The arithmetic wraps on 32-bit unsigned words.
pub fn corr_hash(entries: &[Option<(i32, i32)>]) -> (hash: u32)
    requires
        forall|i: int| 0 <= i < entries@.len() ==> #[trigger] entry_fits(entries@[i]),
    ensures
        hash == corr_hash_of(entries@),
        hash <= 0x7FFF_FFFFu32,
{
    let mut hash: u32 = 0;
    let mut i: usize = 0;
    while i < entries.len()
        invariant
            i <= entries@.len(),
            hash == hash_prefix(entries@, i as nat),
            forall|k: int| 0 <= k < entries@.len() ==> #[trigger] entry_fits(entries@[k]),
        decreases entries@.len() - i,
    {
        let code: u32 = match entries[i] {
            Some((j1, j2)) => {
                assert(entry_fits(entries@[i as int]));
                (j1 + 1000 * j2) as u32
            },
            None => 0xFFFF_FFFFu32,
        };
        let even: bool = (i & 1) == 0;
        assert(even == (i % 2 == 0)) by (bit_vector)
            requires even == ((i & 1) == 0);
        if even {
            hash ^= (hash << 7u32) ^ code ^ (hash >> 3u32);
        } else {
            hash ^= !((hash << 11u32) ^ code ^ (hash >> 5u32));
        }
        i += 1;
    }
    let masked: u32 = hash & 0x7FFF_FFFFu32;
    assert(masked <= 0x7FFF_FFFFu32) by (bit_vector)
        requires masked == hash & 0x7FFF_FFFFu32;
    masked
}

} // verus!
