//! Bitboard primitives: one bit per cell of the 9 x 7 grid, packed into a
//! `u64`, together with the spec-level occupancy predicate and a counting
//! argument used to tie the move counter to the number of occupied cells.

use vstd::prelude::*;
use vstd::set_lib::{lemma_int_range, lemma_len_subset, set_int_range};

verus! {

/// Number of columns of the grid.
pub const WIDTH: i64 = 9;

/// Number of rows of the grid.
pub const HEIGHT: i64 = 7;

/// The single-bit mask of cell `i`.
pub open spec fn bmask(i: int) -> u64 {
    1u64 << (i as u64)
}

/// Cell `i` is marked in the bitboard `v`.
pub open spec fn occ(v: u64, i: int) -> bool {
    v & bmask(i) != 0
}

/// Cell `i` is marked in neither of the two bitboards.
pub open spec fn cell_empty(p1: u64, p2: u64, i: int) -> bool {
    !occ(p1, i) && !occ(p2, i)
}

/// The set of occupied cells of a bitboard.
pub open spec fn occ_set(v: u64) -> Set<int> {
    Set::new(|i: int| 0 <= i < 63 && occ(v, i))
}

/// How many of the 63 cells are occupied in `v`.
pub open spec fn count(v: u64) -> nat {
    occ_set(v).len()
}

/// Mark cell `i` in `v`.
pub fn set(v: u64, i: i64) -> (r: u64)
    requires
        0 <= i < 63,
    ensures
        r == v | bmask(i as int),
{
    v | (1u64 << (i as u64))
}

/// Whether cell `i` is marked in `v`.
pub fn is_set(v: u64, i: i64) -> (r: bool)
    requires
        0 <= i < 63,
    ensures
        r == occ(v, i as int),
{
    v & (1u64 << (i as u64)) != 0
}

/// Unmark cell `i` in `v`.
pub fn clear(v: u64, i: i64) -> (r: u64)
    requires
        0 <= i < 63,
    ensures
        r == v & !bmask(i as int),
{
    v & !(1u64 << (i as u64))
}

/// The cell index of column `x`, row `y`.
pub fn index(x: i64, y: i64) -> (r: i64)
    requires
        0 <= x < 9,
        0 <= y < 7,
    ensures
        r == 9 * y + x,
{
    WIDTH * y + x
}

/// The (column, row) pair of a cell index.
pub fn reverse(i: i64) -> (r: (i64, i64))
    requires
        0 <= i < 63,
    ensures
        r.0 == (i as int) % 9,
        r.1 == (i as int) / 9,
        9 * r.1 + r.0 == i,
        0 <= r.0 < 9,
        0 <= r.1 < 7,
{
    let y = i / WIDTH;
    let x = i - y * WIDTH;
    (x, y)
}

/// Setting bit `i` leaves every other bit alone and marks `i` itself.
pub proof fn lemma_set_bit(v: u64, i: u64, j: u64)
    by (bit_vector)
    requires
        i < 63,
        j < 64,
    ensures
        (v | (1u64 << i)) & (1u64 << j) != 0 <==> (j == i || v & (1u64 << j) != 0),
{
}

/// Clearing bit `i` leaves every other bit alone and unmarks `i` itself.
pub proof fn lemma_clear_bit(v: u64, i: u64, j: u64)
    by (bit_vector)
    requires
        i < 63,
        j < 64,
    ensures
        (v & !(1u64 << i)) & (1u64 << j) != 0 <==> (j != i && v & (1u64 << j) != 0),
{
}

/// Setting a bit that was clear and then clearing it restores the board.
pub proof fn lemma_set_then_clear(v: u64, i: u64)
    by (bit_vector)
    requires
        i < 63,
        v & (1u64 << i) == 0,
    ensures
        (v | (1u64 << i)) & !(1u64 << i) == v,
{
}

/// A bit that is set can be cleared and set again without loss.
pub proof fn lemma_clear_then_set(v: u64, i: u64)
    by (bit_vector)
    requires
        i < 63,
        v & (1u64 << i) != 0,
    ensures
        (v & !(1u64 << i)) | (1u64 << i) == v,
{
}

/// The occupied set is finite and holds at most the 63 grid cells.
pub proof fn lemma_count_bound(v: u64)
    ensures
        occ_set(v).finite(),
        count(v) <= 63,
{
    lemma_int_range(0, 63);
    assert(occ_set(v).subset_of(set_int_range(0, 63)));
    lemma_len_subset(occ_set(v), set_int_range(0, 63));
}

/// Marking an empty cell raises the occupied count by exactly one.
pub proof fn lemma_count_set(v: u64, i: u64)
    requires
        i < 63,
        v & (1u64 << i) == 0,
    ensures
        count(v | (1u64 << i)) == count(v) + 1,
{
    lemma_count_bound(v);
    assert forall|j: int|
        occ_set(v | (1u64 << i)).contains(j) <==> occ_set(v).insert(i as int).contains(j) by {
        if 0 <= j < 63 {
            lemma_set_bit(v, i, j as u64);
        }
    }
    assert(occ_set(v | (1u64 << i)) =~= occ_set(v).insert(i as int));
    assert(!occ_set(v).contains(i as int));
}

/// Unmarking an occupied cell lowers the occupied count by exactly one.
pub proof fn lemma_count_clear(v: u64, i: u64)
    requires
        i < 63,
        v & (1u64 << i) != 0,
    ensures
        count(v) >= 1,
        count(v & !(1u64 << i)) == count(v) - 1,
{
    lemma_count_bound(v);
    assert forall|j: int|
        occ_set(v & !(1u64 << i)).contains(j) <==> occ_set(v).remove(i as int).contains(j) by {
        if 0 <= j < 63 {
            lemma_clear_bit(v, i, j as u64);
        }
    }
    assert(occ_set(v & !(1u64 << i)) =~= occ_set(v).remove(i as int));
    assert(occ_set(v).contains(i as int));
}

/// A board with an empty cell holds at most 62 stones.
pub proof fn lemma_count_not_full(v: u64, i: u64)
    requires
        i < 63,
        v & (1u64 << i) == 0,
    ensures
        count(v) <= 62,
{
    lemma_int_range(0, 63);
    lemma_count_bound(v);
    assert(occ_set(v).subset_of(set_int_range(0, 63).remove(i as int)));
    lemma_len_subset(occ_set(v), set_int_range(0, 63).remove(i as int));
    assert(set_int_range(0, 63).contains(i as int));
    assert(set_int_range(0, 63).remove(i as int).len() == 62);
}

/// An all-zero bitboard has no occupied cell.
pub proof fn lemma_count_zero()
    ensures
        count(0u64) == 0,
        0u64 | 0u64 == 0u64,
        0u64 & 0u64 == 0u64,
        forall|i: int| !occ(0u64, i),
{
    assert forall|i: int| !occ(0u64, i) by {
        let iu = i as u64;
        assert(0u64 & (1u64 << iu) == 0) by (bit_vector);
    }
    assert(occ_set(0u64) =~= Set::empty());
    assert(0u64 | 0u64 == 0u64 && 0u64 & 0u64 == 0u64) by (bit_vector);
}

/// A board with fewer than 63 stones has an empty cell.
pub proof fn lemma_not_full_has_empty(v: u64)
    requires
        count(v) < 63,
    ensures
        exists|i: int| 0 <= i < 63 && !occ(v, i),
{
    lemma_count_bound(v);
    if forall|i: int| 0 <= i < 63 ==> occ(v, i) {
        lemma_int_range(0, 63);
        assert(set_int_range(0, 63).subset_of(occ_set(v)));
        lemma_len_subset(set_int_range(0, 63), occ_set(v));
        assert(false);
    }
}

} // verus!
