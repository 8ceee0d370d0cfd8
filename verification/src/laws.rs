//! Laws of the board state, stated over the abstract model and proved once
//! for every position they speak of.

use vstd::prelude::*;
use crate::bits::{cell_empty, count, occ};
use crate::board::{
    arm, axis_run, cache_score, in_grid, legal_moves, lemma_play_undo_core, lemma_union_bit,
    score_ready, spec_is_terminal, spec_play, spec_score, spec_undo, wf, wins_through, BoardModel,
};

verus! {

/// The value of searching `m` for `depth` further plies, in negamax form:
/// every value is seen from the player about to move, and each child's
/// value is negated on the way up. A position without legal moves is full,
/// hence terminal, so the move fold is only reached with moves at hand.
pub open spec fn spec_negamax(m: BoardModel, depth: nat, color: int) -> int
    decreases depth, legal_moves(m).len() + 1,
{
    if depth == 0 || spec_is_terminal(m) {
        color * spec_score(m)
    } else {
        nega_best(m, legal_moves(m), 0, depth, color)
    }
}

/// The greatest negated child value among the moves from index `k` on.
pub open spec fn nega_best(m: BoardModel, moves: Seq<i64>, k: int, depth: nat, color: int) -> int
    decreases depth, moves.len() - k,
{
    if k < 0 || k >= moves.len() || depth == 0 {
        0
    } else {
        let v = -spec_negamax(spec_play(m, moves[k] as int, color), (depth - 1) as nat, -color);
        if k == moves.len() - 1 {
            v
        } else {
            let rest = nega_best(m, moves, k + 1, depth, color);
            if v >= rest {
                v
            } else {
                rest
            }
        }
    }
}

/// The value of searching `m` for `depth` further plies, in classical
/// minimax form: every value is seen from the first player's viewpoint,
/// maximized on the first player's turns and minimized on the second's.
pub open spec fn spec_minimax(m: BoardModel, depth: nat, color: int) -> int
    decreases depth, legal_moves(m).len() + 1,
{
    if depth == 0 || spec_is_terminal(m) {
        spec_score(m)
    } else if color == 1 {
        maxi_best(m, legal_moves(m), 0, depth)
    } else {
        mini_best(m, legal_moves(m), 0, depth)
    }
}

/// The greatest child value among the moves from index `k` on, the first
/// player moving.
pub open spec fn maxi_best(m: BoardModel, moves: Seq<i64>, k: int, depth: nat) -> int
    decreases depth, moves.len() - k,
{
    if k < 0 || k >= moves.len() || depth == 0 {
        0
    } else {
        let v = spec_minimax(spec_play(m, moves[k] as int, 1), (depth - 1) as nat, -1);
        if k == moves.len() - 1 {
            v
        } else {
            let rest = maxi_best(m, moves, k + 1, depth);
            if v >= rest {
                v
            } else {
                rest
            }
        }
    }
}

/// The least child value among the moves from index `k` on, the second
/// player moving.
pub open spec fn mini_best(m: BoardModel, moves: Seq<i64>, k: int, depth: nat) -> int
    decreases depth, moves.len() - k,
{
    if k < 0 || k >= moves.len() || depth == 0 {
        0
    } else {
        let v = spec_minimax(spec_play(m, moves[k] as int, -1), (depth - 1) as nat, 1);
        if k == moves.len() - 1 {
            v
        } else {
            let rest = mini_best(m, moves, k + 1, depth);
            if v <= rest {
                v
            } else {
                rest
            }
        }
    }
}

/// Move-fold step of the negamax/minimax agreement: over any move list,
/// the greatest negated child value is the greatest (for the first player)
/// or the negated least (for the second player) child value of minimax.
proof fn lemma_best_agree(m: BoardModel, moves: Seq<i64>, k: int, depth: nat, color: int)
    requires
        color == 1 || color == -1,
        0 <= k < moves.len(),
        depth >= 1,
    ensures
        color == 1 ==> nega_best(m, moves, k, depth, 1) == maxi_best(m, moves, k, depth),
        color == -1 ==> nega_best(m, moves, k, depth, -1) == -mini_best(m, moves, k, depth),
    decreases depth, moves.len() - k,
{
    lemma_negamax_is_minimax(spec_play(m, moves[k] as int, color), (depth - 1) as nat, -color);
    if k < moves.len() - 1 {
        lemma_best_agree(m, moves, k + 1, depth, color);
    }
}

/// Law: negamax is minimax. Seeing every value from the player about to
/// move and negating at each level gives exactly the classical max/min
/// alternation from the first player's viewpoint, at every position, depth
/// and side to move.
pub proof fn lemma_negamax_is_minimax(m: BoardModel, depth: nat, color: int)
    requires
        color == 1 || color == -1,
    ensures
        spec_negamax(m, depth, color) == color * spec_minimax(m, depth, color),
    decreases depth, legal_moves(m).len() + 1,
{
    if depth == 0 || spec_is_terminal(m) {
    } else {
        if legal_moves(m).len() > 0 {
            lemma_best_agree(m, legal_moves(m), 0, depth, color);
        }
    }
}

/// Fail-soft soundness of a window-pruned result `r` against the true
/// value `v`: strictly inside the window the result is exact, at or below
/// alpha it is an upper bound on the truth, and at or above beta a lower
/// bound.
pub open spec fn fail_soft(r: int, v: int, alpha: int, beta: int) -> bool {
    &&& (alpha < r < beta ==> r == v)
    &&& (r <= alpha ==> v <= r)
    &&& (r >= beta ==> v >= r)
}

/// The search value reads only the stones, the last move and the move
/// counter: two positions that agree on those agree on the value at every
/// depth, whatever their hash, key table or score cache hold.
pub proof fn lemma_negamax_view(p: BoardModel, q: BoardModel, depth: nat, color: int)
    requires
        p.p1 == q.p1,
        p.p2 == q.p2,
        p.last_move == q.last_move,
        p.num_moves == q.num_moves,
    ensures
        spec_negamax(p, depth, color) == spec_negamax(q, depth, color),
    decreases depth, legal_moves(p).len() + 1,
{
    assert(spec_score(p) == spec_score(q));
    assert(legal_moves(p) == legal_moves(q));
    if !(depth == 0 || spec_is_terminal(p)) {
        if legal_moves(p).len() > 0 {
            lemma_nega_best_view(p, q, 0, depth, color);
        }
    }
}

/// Move-fold step of the view congruence.
proof fn lemma_nega_best_view(p: BoardModel, q: BoardModel, k: int, depth: nat, color: int)
    requires
        p.p1 == q.p1,
        p.p2 == q.p2,
        p.last_move == q.last_move,
        p.num_moves == q.num_moves,
        depth >= 1,
        0 <= k < legal_moves(p).len(),
    ensures
        nega_best(p, legal_moves(p), k, depth, color) == nega_best(
            q,
            legal_moves(q),
            k,
            depth,
            color,
        ),
    decreases depth, legal_moves(p).len() - k,
{
    let moves = legal_moves(p);
    assert(legal_moves(q) == moves);
    let cp = spec_play(p, moves[k] as int, color);
    let cq = spec_play(q, moves[k] as int, color);
    lemma_negamax_view(cp, cq, (depth - 1) as nat, -color);
    if k < moves.len() - 1 {
        lemma_nega_best_view(p, q, k + 1, depth, color);
    }
}

/// Law: applying a legal move and then reverting it restores the occupancy
/// masks, the move counter, the hash and the key table exactly. Both steps
/// leave the score cache invalid, so a position whose cache was not yet
/// valid round-trips on the cache flag as well; only the last-move record
/// is not restored.
pub proof fn lemma_apply_revert_round_trip(m: BoardModel, c: int, color: int)
    requires
        wf(m),
        0 <= c < 63,
        color == 1 || color == -1,
        cell_empty(m.p1, m.p2, c),
    ensures
        ({
            let rt = spec_undo(spec_play(m, c, color), c, color);
            &&& rt.p1 == m.p1
            &&& rt.p2 == m.p2
            &&& rt.num_moves == m.num_moves
            &&& rt.hash == m.hash
            &&& rt.keys == m.keys
            &&& rt.cached_score == m.cached_score
            &&& rt.score_cached == false
            &&& (!m.score_cached ==> rt.score_cached == m.score_cached)
        }),
{
    lemma_play_undo_core(m, spec_play(m, c, color), c, color);
}

/// The same position with the two players' masks swapped.
pub open spec fn swap_players(m: BoardModel) -> BoardModel {
    BoardModel { p1: m.p2, p2: m.p1, ..m }
}

/// Law: swapping which mask is "mine" negates the terminal score, so the
/// score's magnitude does not depend on which player owns the connecting
/// stones.
pub proof fn lemma_score_sign_symmetry(m: BoardModel)
    requires
        m.p1 & m.p2 == 0,
        score_ready(m),
    ensures
        spec_score(swap_players(m)) == -spec_score(m),
{
    if m.num_moves != 0 {
        lemma_union_bit(m.p1, m.p2, m.last_move as u64);
    }
}

/// Search values are bounded by the best still-achievable win score: a win
/// at ply n is worth 100 - n, and every line only adds stones.
pub proof fn lemma_negamax_value_bound(m: BoardModel, depth: nat, color: int)
    requires
        wf(m),
        color == 1 || color == -1,
    ensures
        -(100 - m.num_moves) <= spec_negamax(m, depth, color) <= 100 - m.num_moves,
    decreases depth, legal_moves(m).len() + 1,
{
    if depth == 0 || spec_is_terminal(m) {
        if color == 1 {
            assert(color * spec_score(m) == spec_score(m));
        } else {
            assert(color * spec_score(m) == -spec_score(m));
        }
    } else {
        if legal_moves(m).len() > 0 {
            lemma_nega_best_bound(m, 0, depth, color);
        }
    }
}

/// Move-fold step of the value bound: each child carries one stone more, so
/// every negated child value is bounded by `99 - num_moves`.
proof fn lemma_nega_best_bound(m: BoardModel, k: int, depth: nat, color: int)
    requires
        wf(m),
        color == 1 || color == -1,
        depth >= 1,
        0 <= k < legal_moves(m).len(),
    ensures
        -(99 - m.num_moves) <= nega_best(m, legal_moves(m), k, depth, color) <= 99 - m.num_moves,
    decreases depth, legal_moves(m).len() - k,
{
    let moves = legal_moves(m);
    crate::board::lemma_legal_from_props(m.p1, m.p2, 0);
    assert(moves[k] == crate::board::legal_from(m.p1, m.p2, 0)[k]);
    let c = moves[k] as int;
    crate::board::lemma_wf_play(m, c, color);
    lemma_negamax_value_bound(spec_play(m, c, color), (depth - 1) as nat, -color);
    if k < moves.len() - 1 {
        lemma_nega_best_bound(m, k + 1, depth, color);
    }
}

/// The move fold reaches every listed move: its result is at least the
/// negated search value of the `j`-th child, for any `j` at or after `k`.
pub proof fn lemma_nega_best_attains(m: BoardModel, k: int, j: int, depth: nat, color: int)
    requires
        depth >= 1,
        0 <= k <= j < legal_moves(m).len(),
    ensures
        nega_best(m, legal_moves(m), k, depth, color) >= -spec_negamax(
            spec_play(m, legal_moves(m)[j] as int, color),
            (depth - 1) as nat,
            -color,
        ),
    decreases j - k,
{
    if k < j {
        lemma_nega_best_attains(m, k + 1, j, depth, color);
    }
}

/// The move fold answers with one of its elements: some move at or after
/// `k` has exactly the folded value as its negated search value.
pub proof fn lemma_nega_best_element(m: BoardModel, k: int, depth: nat, color: int)
    requires
        depth >= 1,
        0 <= k < legal_moves(m).len(),
    ensures
        exists|j: int|
            k <= j < legal_moves(m).len() && nega_best(m, legal_moves(m), k, depth, color)
                == -spec_negamax(
                #[trigger] spec_play(m, legal_moves(m)[j] as int, color),
                (depth - 1) as nat,
                -color,
            ),
    decreases legal_moves(m).len() - k,
{
    let moves = legal_moves(m);
    let v = -spec_negamax(spec_play(m, moves[k] as int, color), (depth - 1) as nat, -color);
    if k == moves.len() - 1 {
        assert(nega_best(m, moves, k, depth, color) == v);
    } else {
        lemma_nega_best_element(m, k + 1, depth, color);
        let rest = nega_best(m, moves, k + 1, depth, color);
        if v >= rest {
            assert(nega_best(m, moves, k, depth, color) == v);
        } else {
            assert(nega_best(m, moves, k, depth, color) == rest);
        }
    }
}

/// Law (winning drop): when some legal drop immediately wins for the first
/// player, the position's search value at any positive depth is exactly
/// that win's score, `99 - num_moves`: no line scores higher, and the
/// winning drop attains it.
pub proof fn lemma_winning_drop(m: BoardModel, w: i64, depth: nat)
    requires
        wf(m),
        depth >= 1,
        !spec_is_terminal(m),
        legal_moves(m).contains(w),
        spec_score(spec_play(m, w as int, 1)) == 99 - m.num_moves,
    ensures
        spec_negamax(m, depth, 1) == 99 - m.num_moves,
{
    let moves = legal_moves(m);
    let j = choose|j: int| 0 <= j < moves.len() && moves[j] == w;
    let c = spec_play(m, w as int, 1);
    assert(spec_is_terminal(c));
    assert(spec_negamax(c, (depth - 1) as nat, -1) == -1 * spec_score(c));
    lemma_nega_best_attains(m, 0, j, depth, 1);
    lemma_nega_best_bound(m, 0, depth, 1);
    assert(spec_negamax(m, depth, 1) == nega_best(m, moves, 0, depth, 1));
}

/// Law (drawn board): a full board on which no cell completes four in a
/// row for either player is terminal with score zero.
pub proof fn lemma_full_draw(m: BoardModel)
    requires
        wf(m),
        score_ready(m),
        m.num_moves == 63,
        forall|c: int|
            #![trigger wins_through(m.p1, c)]
            #![trigger wins_through(m.p2, c)]
            0 <= c < 63 ==> !wins_through(m.p1, c) && !wins_through(m.p2, c),
    ensures
        spec_is_terminal(m),
        spec_score(m) == 0,
{
    assert(!wins_through(m.p1, m.last_move));
    assert(!wins_through(m.p2, m.last_move));
}

/// The first three cells along a ray that the `arm` walk counts are in the
/// grid and occupied.
proof fn lemma_arm_cells(mask: u64, x: int, y: int, dx: int, dy: int)
    ensures
        arm(mask, x, y, dx, dy, 3) >= 1 ==> in_grid(x + dx, y + dy) && occ(
            mask,
            9 * (y + dy) + (x + dx),
        ),
        arm(mask, x, y, dx, dy, 3) >= 2 ==> in_grid(x + 2 * dx, y + 2 * dy) && occ(
            mask,
            9 * (y + 2 * dy) + (x + 2 * dx),
        ),
        arm(mask, x, y, dx, dy, 3) >= 3 ==> in_grid(x + 3 * dx, y + 3 * dy) && occ(
            mask,
            9 * (y + 3 * dy) + (x + 3 * dx),
        ),
{
    if arm(mask, x, y, dx, dy, 3) >= 1 {
        assert(arm(mask, x, y, dx, dy, 3) == 1 + arm(mask, x + dx, y + dy, dx, dy, 2));
        if arm(mask, x + dx, y + dy, dx, dy, 2) >= 1 {
            assert(arm(mask, x + dx, y + dy, dx, dy, 2) == 1 + arm(
                mask,
                x + 2 * dx,
                y + 2 * dy,
                dx,
                dy,
                1,
            ));
        }
    }
}

/// Four distinct occupied cells put at least four stones on the board.
proof fn lemma_four_cells_count(mask: u64, c0: int, c1: int, c2: int, c3: int)
    requires
        0 <= c0 < 63 && 0 <= c1 < 63 && 0 <= c2 < 63 && 0 <= c3 < 63,
        c0 != c1 && c0 != c2 && c0 != c3 && c1 != c2 && c1 != c3 && c2 != c3,
        occ(mask, c0) && occ(mask, c1) && occ(mask, c2) && occ(mask, c3),
    ensures
        count(mask) >= 4,
{
    crate::bits::lemma_count_bound(mask);
    let s = Set::<int>::empty().insert(c0).insert(c1).insert(c2).insert(c3);
    assert(s.len() == 4);
    assert(s.subset_of(crate::bits::occ_set(mask)));
    vstd::set_lib::lemma_len_subset(s, crate::bits::occ_set(mask));
}

/// A run of four through an occupied cell along one axis takes at least
/// four stones of that player.
proof fn lemma_axis_four(mask: u64, c: int, x: int, y: int, dx: int, dy: int)
    requires
        c == 9 * y + x,
        0 <= x < 9,
        0 <= y < 7,
        occ(mask, c),
        -1 <= dx <= 1,
        -1 <= dy <= 1,
        !(dx == 0 && dy == 0),
        axis_run(mask, x, y, dx, dy) >= 4,
    ensures
        count(mask) >= 4,
{
    let s = 9 * dy + dx;
    assert(s != 0);
    let a = arm(mask, x, y, dx, dy, 3);
    let b = arm(mask, x, y, -dx, -dy, 3);
    lemma_arm_cells(mask, x, y, dx, dy);
    lemma_arm_cells(mask, x, y, -dx, -dy);
    assert(0 <= a <= 3 && 0 <= b <= 3) by {
        lemma_arm_bound(mask, x, y, dx, dy, 3);
        lemma_arm_bound(mask, x, y, -dx, -dy, 3);
    };
    if a >= 3 {
        lemma_four_cells_count(mask, c, c + s, c + 2 * s, c + 3 * s);
    } else if a == 2 {
        lemma_four_cells_count(mask, c - s, c, c + s, c + 2 * s);
    } else if a == 1 {
        lemma_four_cells_count(mask, c - 2 * s, c - s, c, c + s);
    } else {
        lemma_four_cells_count(mask, c - 3 * s, c - 2 * s, c - s, c);
    }
}

/// The ray walk counts at most its step budget.
proof fn lemma_arm_bound(mask: u64, x: int, y: int, dx: int, dy: int, k: nat)
    ensures
        0 <= arm(mask, x, y, dx, dy, k) <= k,
    decreases k,
{
    if k > 0 {
        lemma_arm_bound(mask, x + dx, y + dy, dx, dy, (k - 1) as nat);
    }
}

/// A four-in-a-row through an occupied cell takes at least four stones.
pub proof fn lemma_win_needs_four(mask: u64, c: int)
    requires
        0 <= c < 63,
        occ(mask, c),
        wins_through(mask, c),
    ensures
        count(mask) >= 4,
{
    vstd::arithmetic::div_mod::lemma_fundamental_div_mod(c, 9);
    let x = c % 9;
    let y = c / 9;
    if axis_run(mask, x, y, 1, 0) >= 4 {
        lemma_axis_four(mask, c, x, y, 1, 0);
    } else if axis_run(mask, x, y, 0, 1) >= 4 {
        lemma_axis_four(mask, c, x, y, 0, 1);
    } else if axis_run(mask, x, y, 1, 1) >= 4 {
        lemma_axis_four(mask, c, x, y, 1, 1);
    } else {
        lemma_axis_four(mask, c, x, y, 1, -1);
    }
}

/// A position is alternation-balanced: the two stone counts are within one
/// of each other and together account for the move counter — true of every
/// position reached by alternating play from an empty board.
pub open spec fn balanced(m: BoardModel) -> bool {
    &&& count(m.p1) <= count(m.p2) + 1
    &&& count(m.p2) <= count(m.p1) + 1
    &&& m.num_moves == count(m.p1) + count(m.p2)
}

/// Law (score band): on a well-formed, alternation-balanced position the
/// terminal score is zero or a win score no earlier than move seven, with
/// magnitude exactly `100 - num_moves`, so between 37 and 93.
pub proof fn lemma_score_band(m: BoardModel)
    requires
        wf(m),
        score_ready(m),
        balanced(m),
    ensures
        spec_score(m) == 0 || (7 <= m.num_moves <= 63 && (spec_score(m) == 100 - m.num_moves
            || spec_score(m) == -(100 - m.num_moves))),
        spec_score(m) != 0 ==> 37 <= spec_score(m) <= 93 || -93 <= spec_score(m) <= -37,
{
    if spec_score(m) != 0 {
        let winner = if occ(m.p1, m.last_move) {
            m.p1
        } else {
            m.p2
        };
        lemma_win_needs_four(winner, m.last_move);
    }
}

/// Law: once the score cache is valid, a further terminal-score query is a
/// no-op on the state — the score is computed once and then only read back.
pub proof fn lemma_score_cache_idempotent(m: BoardModel)
    requires
        wf(m),
        m.score_cached,
    ensures
        cache_score(m) == m,
{
    assert(cache_score(m) =~= m);
}

} // verus!
