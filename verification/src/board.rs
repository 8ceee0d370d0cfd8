//! The mathematical model of a position: occupancy masks, move counter,
//! last move, incrementally maintained hash and score cache, together with
//! the well-formedness invariant, the play/undo transition functions, the
//! terminal-score definition and the legal-move enumeration.

use vstd::prelude::*;
use vstd::arithmetic::div_mod::lemma_fundamental_div_mod;
use crate::bits::{bmask, cell_empty, count, occ};
use crate::bits::{
    lemma_count_bound, lemma_count_clear, lemma_count_not_full, lemma_count_set,
    lemma_not_full_has_empty, lemma_set_bit,
};
use crate::zobrist::{full_hash, zh};
use crate::zobrist::{lemma_zh_clear_p1, lemma_zh_clear_p2, lemma_zh_set_p1, lemma_zh_set_p2};

verus! {

/// The abstract value of a board position.
#[verifier::ext_equal]
pub ghost struct BoardModel {
    /// Occupancy mask of the first (maximizing) player.
    pub p1: u64,
    /// Occupancy mask of the second player.
    pub p2: u64,
    /// Cell index of the most recent move, or -1 right after an undo.
    pub last_move: int,
    /// Number of stones on the board.
    pub num_moves: int,
    /// The incrementally maintained position hash.
    pub hash: u64,
    /// Whether the cached terminal score is valid.
    pub score_cached: bool,
    /// The cached terminal score; meaningful only when `score_cached`.
    pub cached_score: int,
    /// The Zobrist key table: two keys per cell, then the side-to-move key.
    pub keys: Seq<u64>,
}

/// Well-formedness: disjoint masks, a full key table, a move counter that
/// counts the stones, a hash that equals the from-scratch recomputation,
/// and a score cache that is right whenever it is marked valid.
pub open spec fn wf(m: BoardModel) -> bool {
    &&& m.p1 & m.p2 == 0
    &&& m.keys.len() == 127
    &&& m.num_moves == count(m.p1 | m.p2)
    &&& m.num_moves <= 63
    &&& m.hash == full_hash(m.keys, m.p1, m.p2, m.num_moves)
    &&& (m.score_cached ==> m.cached_score == spec_score(m))
}

/// The terminal score may be queried: either the board is untouched, or the
/// last move names an occupied cell. An undo leaves `last_move` at -1, so a
/// score query must wait for the next play.
pub open spec fn score_ready(m: BoardModel) -> bool {
    m.num_moves == 0 || (0 <= m.last_move < 63 && (occ(m.p1, m.last_move) || occ(
        m.p2,
        m.last_move,
    )))
}

/// The Zobrist key of (cell `c`, the player of `color`).
pub open spec fn key_of(keys: Seq<u64>, c: int, color: int) -> u64 {
    if color == 1 {
        keys[2 * c]
    } else {
        keys[2 * c + 1]
    }
}

/// The position after dropping a stone of `color` on cell `c`.
pub open spec fn spec_play(m: BoardModel, c: int, color: int) -> BoardModel {
    BoardModel {
        p1: if color == 1 {
            m.p1 | bmask(c)
        } else {
            m.p1
        },
        p2: if color == 1 {
            m.p2
        } else {
            m.p2 | bmask(c)
        },
        last_move: c,
        num_moves: m.num_moves + 1,
        hash: m.hash ^ key_of(m.keys, c, color) ^ m.keys[126],
        score_cached: false,
        ..m
    }
}

/// The position after taking a stone of `color` back off cell `c`.
pub open spec fn spec_undo(m: BoardModel, c: int, color: int) -> BoardModel {
    BoardModel {
        p1: if color == 1 {
            m.p1 & !bmask(c)
        } else {
            m.p1
        },
        p2: if color == 1 {
            m.p2
        } else {
            m.p2 & !bmask(c)
        },
        last_move: -1,
        num_moves: m.num_moves - 1,
        hash: m.hash ^ m.keys[126] ^ key_of(m.keys, c, color),
        score_cached: false,
        ..m
    }
}

/// The score cache after a terminal-score query.
pub open spec fn cache_score(m: BoardModel) -> BoardModel {
    BoardModel { score_cached: true, cached_score: spec_score(m), ..m }
}

/// The two positions agree on everything a search may not disturb:
/// occupancy, move counter, hash and key table.
pub open spec fn same_core(a: BoardModel, b: BoardModel) -> bool {
    &&& a.p1 == b.p1
    &&& a.p2 == b.p2
    &&& a.num_moves == b.num_moves
    &&& a.hash == b.hash
    &&& a.keys == b.keys
}

/// (x, y) lies on the grid.
pub open spec fn in_grid(x: int, y: int) -> bool {
    0 <= x < 9 && 0 <= y < 7
}

/// How many contiguous stones of `mask` lie on the ray from (x, y) in
/// direction (dx, dy), starting one step out and walking at most `k` steps.
pub open spec fn arm(mask: u64, x: int, y: int, dx: int, dy: int, k: nat) -> int
    decreases k,
{
    if k == 0 {
        0
    } else if in_grid(x + dx, y + dy) && occ(mask, 9 * (y + dy) + (x + dx)) {
        1 + arm(mask, x + dx, y + dy, dx, dy, (k - 1) as nat)
    } else {
        0
    }
}

/// Length of the contiguous run of `mask` through (x, y) along the axis
/// (dx, dy), looking at most three steps out to each side.
pub open spec fn axis_run(mask: u64, x: int, y: int, dx: int, dy: int) -> int {
    1 + arm(mask, x, y, dx, dy, 3) + arm(mask, x, y, -dx, -dy, 3)
}

/// The stone on cell `c` completes a four-in-a-row for `mask` along one of
/// the four axes.
pub open spec fn wins_through(mask: u64, c: int) -> bool {
    let x = c % 9;
    let y = c / 9;
    ||| axis_run(mask, x, y, 1, 0) >= 4
    ||| axis_run(mask, x, y, 0, 1) >= 4
    ||| axis_run(mask, x, y, 1, 1) >= 4
    ||| axis_run(mask, x, y, 1, -1) >= 4
}

/// The terminal score of a position: zero unless the last move completed a
/// four-in-a-row, in which case the winner's score is `100 - num_moves`,
/// positive for the first (maximizing) player and negative for the second.
pub open spec fn spec_score(m: BoardModel) -> int {
    if m.num_moves == 0 {
        0
    } else {
        let mine = occ(m.p1, m.last_move);
        let mask = if mine {
            m.p1
        } else {
            m.p2
        };
        if wins_through(mask, m.last_move) {
            if mine {
                100 - m.num_moves
            } else {
                -(100 - m.num_moves)
            }
        } else {
            0
        }
    }
}

/// A position is terminal when the board is full or the last move decided
/// the game.
pub open spec fn spec_is_terminal(m: BoardModel) -> bool {
    m.num_moves == 63 || spec_score(m) != 0
}

/// The lowest empty cell of column `x`, scanning from row `y` toward the
/// top row, or -1 if those rows are all occupied.
pub open spec fn lowest_empty_from(p1: u64, p2: u64, x: int, y: int) -> int
    decreases y + 1,
{
    if y < 0 {
        -1
    } else if cell_empty(p1, p2, 9 * y + x) {
        9 * y + x
    } else {
        lowest_empty_from(p1, p2, x, y - 1)
    }
}

/// The legal drop targets of the columns from `x` rightward: for each
/// column that still has room, its lowest empty cell, in column order.
pub open spec fn legal_from(p1: u64, p2: u64, x: int) -> Seq<i64>
    decreases 9 - x,
{
    if x < 0 || x >= 9 {
        Seq::empty()
    } else {
        let c = lowest_empty_from(p1, p2, x, 6);
        (if c >= 0 {
            seq![c as i64]
        } else {
            Seq::empty()
        }) + legal_from(p1, p2, x + 1)
    }
}

/// All legal drop targets of a position, ordered by column.
pub open spec fn legal_moves(m: BoardModel) -> Seq<i64> {
    legal_from(m.p1, m.p2, 0)
}

/// Bitboard-union facts that the transition proofs lean on.
pub proof fn lemma_union_bit(p1: u64, p2: u64, i: u64)
    by (bit_vector)
    requires
        i < 63,
        p1 & p2 == 0,
    ensures
        (p1 | (1u64 << i)) | p2 == (p1 | p2) | (1u64 << i),
        p1 | (p2 | (1u64 << i)) == (p1 | p2) | (1u64 << i),
        p2 & (1u64 << i) == 0 ==> (p1 & !(1u64 << i)) | p2 == (p1 | p2) & !(1u64 << i),
        p1 & (1u64 << i) == 0 ==> p1 | (p2 & !(1u64 << i)) == (p1 | p2) & !(1u64 << i),
        p1 & (1u64 << i) == 0 && p2 & (1u64 << i) == 0 ==> (p1 | p2) & (1u64 << i) == 0,
        (p1 | p2) & (1u64 << i) == 0 ==> p1 & (1u64 << i) == 0 && p2 & (1u64 << i) == 0,
        p1 & (1u64 << i) != 0 ==> (p1 | p2) & (1u64 << i) != 0,
        p2 & (1u64 << i) != 0 ==> (p1 | p2) & (1u64 << i) != 0,
        p2 & (1u64 << i) == 0 ==> (p1 | (1u64 << i)) & p2 == 0,
        p1 & (1u64 << i) == 0 ==> p1 & (p2 | (1u64 << i)) == 0,
        p1 & (1u64 << i) != 0 ==> p2 & (1u64 << i) == 0,
        p2 & (1u64 << i) != 0 ==> p1 & (1u64 << i) == 0,
        (p1 & !(1u64 << i)) & p2 == 0,
        p1 & (p2 & !(1u64 << i)) == 0,
{
}

/// Dropping a stone on an empty cell of a well-formed position yields a
/// well-formed position whose score may be queried at once.
pub proof fn lemma_wf_play(m: BoardModel, c: int, color: int)
    requires
        wf(m),
        0 <= c < 63,
        color == 1 || color == -1,
        cell_empty(m.p1, m.p2, c),
    ensures
        wf(spec_play(m, c, color)),
        score_ready(spec_play(m, c, color)),
        spec_play(m, c, color).num_moves == m.num_moves + 1,
{
    let cu = c as u64;
    let n = spec_play(m, c, color);
    lemma_union_bit(m.p1, m.p2, cu);
    lemma_count_set(m.p1 | m.p2, cu);
    lemma_count_not_full(m.p1 | m.p2, cu);
    lemma_set_bit(if color == 1 {
        m.p1
    } else {
        m.p2
    }, cu, cu);
    assert(n.p1 | n.p2 == (m.p1 | m.p2) | (1u64 << cu));
    let z = zh(m.keys, m.p1, m.p2, 0);
    let k = key_of(m.keys, c, color);
    let s = m.keys[126];
    if color == 1 {
        lemma_zh_set_p1(m.keys, m.p1, m.p2, cu, 0);
    } else {
        lemma_zh_set_p2(m.keys, m.p1, m.p2, cu, 0);
    }
    assert(zh(m.keys, n.p1, n.p2, 0) == z ^ k);
    if m.num_moves % 2 == 0 {
        assert((z ^ 0u64) ^ k ^ s == (z ^ k) ^ s) by (bit_vector);
    } else {
        assert((z ^ s) ^ k ^ s == (z ^ k) ^ 0u64) by (bit_vector);
    }
}

/// Taking a stone of the right colour back off a well-formed position
/// yields a well-formed position.
pub proof fn lemma_wf_undo(m: BoardModel, c: int, color: int)
    requires
        wf(m),
        0 <= c < 63,
        color == 1 || color == -1,
        color == 1 ==> occ(m.p1, c),
        color == -1 ==> occ(m.p2, c),
    ensures
        wf(spec_undo(m, c, color)),
        m.num_moves >= 1,
        spec_undo(m, c, color).num_moves == m.num_moves - 1,
{
    let cu = c as u64;
    let n = spec_undo(m, c, color);
    lemma_union_bit(m.p1, m.p2, cu);
    lemma_count_clear(m.p1 | m.p2, cu);
    lemma_count_bound(m.p1 | m.p2);
    assert(n.p1 | n.p2 == (m.p1 | m.p2) & !(1u64 << cu));
    let z = zh(m.keys, m.p1, m.p2, 0);
    let k = key_of(m.keys, c, color);
    let s = m.keys[126];
    if color == 1 {
        lemma_zh_clear_p1(m.keys, m.p1, m.p2, cu);
    } else {
        lemma_zh_clear_p2(m.keys, m.p1, m.p2, cu);
    }
    assert(zh(m.keys, n.p1, n.p2, 0) == z ^ k);
    if m.num_moves % 2 == 0 {
        assert((z ^ 0u64) ^ s ^ k == (z ^ k) ^ s) by (bit_vector);
    } else {
        assert((z ^ s) ^ s ^ k == (z ^ k) ^ 0u64) by (bit_vector);
    }
}

/// Playing on an empty cell and then undoing the same move restores the
/// masks, the counter, the hash and the key table, whatever a search did to
/// the cache fields and the last-move record in between.
pub proof fn lemma_play_undo_core(m: BoardModel, mid: BoardModel, c: int, color: int)
    requires
        wf(m),
        0 <= c < 63,
        color == 1 || color == -1,
        cell_empty(m.p1, m.p2, c),
        same_core(mid, spec_play(m, c, color)),
    ensures
        same_core(spec_undo(mid, c, color), m),
        color == 1 ==> occ(mid.p1, c),
        color == -1 ==> occ(mid.p2, c),
{
    let cu = c as u64;
    lemma_set_bit(if color == 1 {
        m.p1
    } else {
        m.p2
    }, cu, cu);
    crate::bits::lemma_set_then_clear(if color == 1 {
        m.p1
    } else {
        m.p2
    }, cu);
    let h = m.hash;
    let k = key_of(m.keys, c, color);
    let s = m.keys[126];
    assert(h ^ k ^ s ^ s ^ k == h) by (bit_vector);
}

/// A lowest-empty-cell answer other than -1 names an empty cell of the
/// column, and -1 is answered only when the scanned rows are full; a column
/// with an empty cell among the scanned rows gets an answer.
pub proof fn lemma_lowest_empty(p1: u64, p2: u64, x: int, y: int)
    requires
        0 <= x < 9,
        y <= 6,
    ensures
        lowest_empty_from(p1, p2, x, y) >= 0 ==> {
            let c = lowest_empty_from(p1, p2, x, y);
            &&& 0 <= c < 63
            &&& c % 9 == x
            &&& c / 9 <= y
            &&& cell_empty(p1, p2, c)
        },
        (exists|y0: int| 0 <= y0 <= y && #[trigger] cell_empty(p1, p2, 9 * y0 + x))
            ==> lowest_empty_from(
            p1,
            p2,
            x,
            y,
        ) >= 0,
    decreases y + 1,
{
    if y >= 0 {
        lemma_lowest_empty(p1, p2, x, y - 1);
        if cell_empty(p1, p2, 9 * y + x) {
            assert((9 * y + x) % 9 == x && (9 * y + x) / 9 == y) by {
                lemma_fundamental_div_mod(9 * y + x, 9);
            };
        } else {
            if exists|y0: int| 0 <= y0 <= y && #[trigger] cell_empty(p1, p2, 9 * y0 + x) {
                let y0 = choose|y0: int| 0 <= y0 <= y && #[trigger] cell_empty(p1, p2, 9 * y0 + x);
                assert(y0 <= y - 1);
            }
        }
    }
}

/// Every enumerated legal move is an empty cell of the grid, and it is the
/// gravity target of its column.
pub proof fn lemma_legal_from_props(p1: u64, p2: u64, x: int)
    ensures
        forall|k: int|
            0 <= k < legal_from(p1, p2, x).len() ==> {
                let c = #[trigger] legal_from(p1, p2, x)[k] as int;
                &&& 0 <= c < 63
                &&& cell_empty(p1, p2, c)
                &&& c == lowest_empty_from(p1, p2, c % 9, 6)
            },
    decreases 9 - x,
{
    if 0 <= x < 9 {
        lemma_legal_from_props(p1, p2, x + 1);
        lemma_lowest_empty(p1, p2, x, 6);
        let c0 = lowest_empty_from(p1, p2, x, 6);
        let head = if c0 >= 0 {
            seq![c0 as i64]
        } else {
            Seq::<i64>::empty()
        };
        let tail = legal_from(p1, p2, x + 1);
        assert(legal_from(p1, p2, x) == head + tail);
        assert forall|k: int| 0 <= k < legal_from(p1, p2, x).len() implies {
            let c = #[trigger] legal_from(p1, p2, x)[k] as int;
            &&& 0 <= c < 63
            &&& cell_empty(p1, p2, c)
            &&& c == lowest_empty_from(p1, p2, c % 9, 6)
        } by {
            if k < head.len() {
                assert(legal_from(p1, p2, x)[k] == c0 as i64);
            } else {
                assert(legal_from(p1, p2, x)[k] == tail[k - head.len()]);
            }
        }
    }
}

/// If some column at or right of `x` has a legal move, the enumeration from
/// `x` is non-empty.
proof fn lemma_legal_from_nonempty(p1: u64, p2: u64, x0: int, x: int)
    requires
        0 <= x0 <= x < 9,
        lowest_empty_from(p1, p2, x, 6) >= 0,
    ensures
        legal_from(p1, p2, x0).len() > 0,
    decreases x - x0,
{
    if x0 < x {
        lemma_legal_from_nonempty(p1, p2, x0 + 1, x);
    }
}

/// A position with a free cell has at least one legal move.
pub proof fn lemma_not_full_has_move(m: BoardModel)
    requires
        wf(m),
        m.num_moves < 63,
    ensures
        legal_moves(m).len() > 0,
{
    lemma_not_full_has_empty(m.p1 | m.p2);
    let i = choose|i: int| 0 <= i < 63 && !occ(m.p1 | m.p2, i);
    lemma_union_bit(m.p1, m.p2, i as u64);
    assert(cell_empty(m.p1, m.p2, i));
    lemma_fundamental_div_mod(i, 9);
    let x = i % 9;
    let y = i / 9;
    assert(0 <= x < 9 && 0 <= y <= 6);
    assert(cell_empty(m.p1, m.p2, 9 * y + x));
    lemma_lowest_empty(m.p1, m.p2, x, 6);
    lemma_legal_from_nonempty(m.p1, m.p2, 0, x);
}

} // verus!
