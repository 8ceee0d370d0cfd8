//! Zobrist hashing: a table of 64-bit keys, one per (cell, player) pair plus
//! one side-to-move key, and the spec-level recomputed hash that the
//! incrementally maintained hash must always equal.

use vstd::prelude::*;
use crate::bits::occ;

verus! {

/// Number of keys: two per cell and one side-to-move key at the end.
pub const NUM_KEYS: usize = 127;

/// XOR of the keys of every occupied (cell, player) pair with cell >= i.
///
/// Key `2 * c` belongs to (cell c, first player) and key `2 * c + 1` to
/// (cell c, second player).
pub open spec fn zh(keys: Seq<u64>, p1: u64, p2: u64, i: int) -> u64
    decreases 63 - i,
{
    if i < 0 || i >= 63 {
        0u64
    } else {
        (if occ(p1, i) {
            keys[2 * i]
        } else {
            0u64
        }) ^ (if occ(p2, i) {
            keys[2 * i + 1]
        } else {
            0u64
        }) ^ zh(keys, p1, p2, i + 1)
    }
}

/// The side-to-move contribution: the last key, XORed in once per ply played.
pub open spec fn side_term(keys: Seq<u64>, num_moves: int) -> u64 {
    if num_moves % 2 == 1 {
        keys[126]
    } else {
        0u64
    }
}

/// The position hash recomputed from scratch: occupancy keys plus the
/// side-to-move term.
pub open spec fn full_hash(keys: Seq<u64>, p1: u64, p2: u64, num_moves: int) -> u64 {
    zh(keys, p1, p2, 0) ^ side_term(keys, num_moves)
}

/// XOR identities used to rearrange incremental hash updates.
pub proof fn lemma_xor_shuffle(a: u64, b: u64, c: u64, d: u64)
    by (bit_vector)
    ensures
        a ^ b == b ^ a,
        a ^ 0u64 == a,
        0u64 ^ a == a,
        a ^ b ^ b == a,
        a ^ b ^ (c ^ d) == a ^ b ^ c ^ d,
        a ^ (b ^ c) == a ^ b ^ c,
        a ^ b ^ c ^ c == a ^ b,
        a ^ b ^ c ^ b == a ^ c,
        a ^ b ^ c ^ d ^ d ^ c == a ^ b,
{
}

/// The hash of an empty board is zero.
pub proof fn lemma_zh_empty(keys: Seq<u64>, i: int)
    ensures
        zh(keys, 0u64, 0u64, i) == 0u64,
    decreases 63 - i,
{
    assert forall|j: u64| j < 63 implies !occ(0u64, j as int) by {
        assert(0u64 & (1u64 << j) == 0) by (bit_vector);
    }
    if 0 <= i < 63 {
        lemma_zh_empty(keys, i + 1);
        lemma_xor_shuffle(0u64, 0u64, 0u64, 0u64);
    }
}

/// Marking cell `c` for the first player XORs that cell's key into the hash.
pub proof fn lemma_zh_set_p1(keys: Seq<u64>, p1: u64, p2: u64, c: u64, i: int)
    requires
        c < 63,
        p1 & (1u64 << c) == 0,
        0 <= i <= 63,
    ensures
        i <= c ==> zh(keys, p1 | (1u64 << c), p2, i) == zh(keys, p1, p2, i) ^ keys[2 * (c as int)],
        i > c ==> zh(keys, p1 | (1u64 << c), p2, i) == zh(keys, p1, p2, i),
    decreases 63 - i,
{
    let p1n = p1 | (1u64 << c);
    let k = keys[2 * (c as int)];
    if i >= 63 {
    } else {
        lemma_zh_set_p1(keys, p1, p2, c, i + 1);
        crate::bits::lemma_set_bit(p1, c, i as u64);
        let a = if occ(p1, i) {
            keys[2 * i]
        } else {
            0u64
        };
        let b = if occ(p2, i) {
            keys[2 * i + 1]
        } else {
            0u64
        };
        let z = zh(keys, p1, p2, i + 1);
        if i == c {
            assert(occ(p1n, i));
            assert(!occ(p1, i));
            assert(zh(keys, p1n, p2, i) == k ^ b ^ z);
            assert(zh(keys, p1, p2, i) == 0u64 ^ b ^ z);
            assert(k ^ b ^ z == (0u64 ^ b ^ z) ^ k) by (bit_vector);
        } else if i < c {
            assert(occ(p1n, i) == occ(p1, i));
            assert(zh(keys, p1n, p2, i) == a ^ b ^ (z ^ k));
            assert(a ^ b ^ (z ^ k) == (a ^ b ^ z) ^ k) by (bit_vector);
        } else {
            assert(occ(p1n, i) == occ(p1, i));
        }
    }
}

/// Marking cell `c` for the second player XORs that cell's key into the hash.
pub proof fn lemma_zh_set_p2(keys: Seq<u64>, p1: u64, p2: u64, c: u64, i: int)
    requires
        c < 63,
        p2 & (1u64 << c) == 0,
        0 <= i <= 63,
    ensures
        i <= c ==> zh(keys, p1, p2 | (1u64 << c), i) == zh(keys, p1, p2, i) ^ keys[2 * (c as int)
            + 1],
        i > c ==> zh(keys, p1, p2 | (1u64 << c), i) == zh(keys, p1, p2, i),
    decreases 63 - i,
{
    let p2n = p2 | (1u64 << c);
    let k = keys[2 * (c as int) + 1];
    if i >= 63 {
    } else {
        lemma_zh_set_p2(keys, p1, p2, c, i + 1);
        crate::bits::lemma_set_bit(p2, c, i as u64);
        let a = if occ(p1, i) {
            keys[2 * i]
        } else {
            0u64
        };
        let b = if occ(p2, i) {
            keys[2 * i + 1]
        } else {
            0u64
        };
        let z = zh(keys, p1, p2, i + 1);
        if i == c {
            assert(occ(p2n, i));
            assert(!occ(p2, i));
            assert(zh(keys, p1, p2n, i) == a ^ k ^ z);
            assert(zh(keys, p1, p2, i) == a ^ 0u64 ^ z);
            assert(a ^ k ^ z == (a ^ 0u64 ^ z) ^ k) by (bit_vector);
        } else if i < c {
            assert(occ(p2n, i) == occ(p2, i));
            assert(zh(keys, p1, p2n, i) == a ^ b ^ (z ^ k));
            assert(a ^ b ^ (z ^ k) == (a ^ b ^ z) ^ k) by (bit_vector);
        } else {
            assert(occ(p2n, i) == occ(p2, i));
        }
    }
}

/// Clearing an occupied cell of the first player XORs its key back out.
pub proof fn lemma_zh_clear_p1(keys: Seq<u64>, p1: u64, p2: u64, c: u64)
    requires
        c < 63,
        p1 & (1u64 << c) != 0,
    ensures
        zh(keys, p1 & !(1u64 << c), p2, 0) == zh(keys, p1, p2, 0) ^ keys[2 * (c as int)],
{
    let p1c = p1 & !(1u64 << c);
    assert(p1 & !(1u64 << c) & (1u64 << c) == 0) by (bit_vector);
    crate::bits::lemma_clear_then_set(p1, c);
    lemma_zh_set_p1(keys, p1c, p2, c, 0);
    let z = zh(keys, p1c, p2, 0);
    let k = keys[2 * (c as int)];
    assert(z ^ k ^ k == z) by (bit_vector);
}

/// Clearing an occupied cell of the second player XORs its key back out.
pub proof fn lemma_zh_clear_p2(keys: Seq<u64>, p1: u64, p2: u64, c: u64)
    requires
        c < 63,
        p2 & (1u64 << c) != 0,
    ensures
        zh(keys, p1, p2 & !(1u64 << c), 0) == zh(keys, p1, p2, 0) ^ keys[2 * (c as int) + 1],
{
    let p2c = p2 & !(1u64 << c);
    assert(p2 & !(1u64 << c) & (1u64 << c) == 0) by (bit_vector);
    crate::bits::lemma_clear_then_set(p2, c);
    lemma_zh_set_p2(keys, p1, p2c, c, 0);
    let z = zh(keys, p1, p2c, 0);
    let k = keys[2 * (c as int) + 1];
    assert(z ^ k ^ k == z) by (bit_vector);
}

/// Relies on rand::random for a fresh 64-bit Zobrist key; nothing is
/// promised of the drawn value.
#[verifier::external_body]
pub(crate) fn random_u64() -> u64 {
    rand::random()
}

/// One step of the 64-bit mixing generator, as a function: the advanced
/// state and the drawn key.
pub open spec fn spec_mix(state: u64) -> (u64, u64) {
    let s = state.wrapping_add(0x9E3779B97F4A7C15u64);
    let z1 = (s ^ (s >> 30u64)).wrapping_mul(0xBF58476D1CE4E5B9u64);
    let z2 = (z1 ^ (z1 >> 27u64)).wrapping_mul(0x94D049BB133111EBu64);
    (s, z2 ^ (z2 >> 31u64))
}

/// The generator state after `i` steps from `seed`.
pub open spec fn mix_state(seed: u64, i: nat) -> u64
    decreases i,
{
    if i == 0 {
        seed
    } else {
        spec_mix(mix_state(seed, (i - 1) as nat)).0
    }
}

/// The `i`-th key drawn from `seed`: the key tables of equal seeds are
/// equal, so seeded play is reproducible.
pub open spec fn seeded_key(seed: u64, i: nat) -> u64 {
    spec_mix(mix_state(seed, i)).1
}

/// One step of the 64-bit mixing generator; used to derive a deterministic
/// key table from a seed for reproducible play.
pub fn mix_next(state: u64) -> (r: (u64, u64))
    ensures
        r == spec_mix(state),
{
    let s = state.wrapping_add(0x9E3779B97F4A7C15u64);
    let mut z = s;
    z = (z ^ (z >> 30)).wrapping_mul(0xBF58476D1CE4E5B9u64);
    z = (z ^ (z >> 27)).wrapping_mul(0x94D049BB133111EBu64);
    z = z ^ (z >> 31);
    (s, z)
}

} // verus!
