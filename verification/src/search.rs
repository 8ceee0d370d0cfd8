//! The search engine: negamax with alpha-beta pruning over a transposition
//! table keyed by the position hash, and the time-boxed iterative-deepening
//! driver that picks a move within a wall-clock budget.

use vstd::prelude::*;
use std::collections::HashMap;
use crate::bits::cell_empty;
use crate::board::{
    legal_from, legal_moves, same_core, score_ready, spec_is_terminal, spec_play, spec_score,
    BoardModel,
};
use crate::board::{lemma_legal_from_props, lemma_not_full_has_move, lemma_play_undo_core};
use crate::laws::{
    fail_soft, lemma_nega_best_attains, lemma_nega_best_element, lemma_negamax_view, nega_best,
    spec_negamax,
};
use crate::state::State;
use crate::table::{spec_probe, tt_wf, Entry, Flag};

verus! {

broadcast use vstd::std_specs::hash::group_hash_axioms;

#[verifier::external_type_specification]
#[verifier::external_body]
pub struct ExInstant(std::time::Instant);

/// Relies on std::time::Instant::now for a moment to measure elapsed time
/// from; nothing is promised of the value.
#[verifier::external_body]
fn instant_now() -> std::time::Instant {
    std::time::Instant::now()
}

/// Relies on std::time::Instant::elapsed; the result depends on the clock,
/// so nothing is promised of it.
#[verifier::external_body]
fn elapsed_of(start: &std::time::Instant) -> std::time::Duration {
    start.elapsed()
}

/// Relies on std::time::Duration::as_millis, truncated to 64 bits; the
/// argument depends on the clock, so nothing is promised of the result.
#[verifier::external_body]
fn millis_of(d: &std::time::Duration) -> u64 {
    d.as_millis() as u64
}

/// The recursive negamax step over the window `[alpha, beta)`.
///
/// The transposition table is probed first and may tighten the window or
/// answer outright; at depth zero or at a decided or full position the
/// terminal score is returned from the moving player's viewpoint; otherwise
/// every legal move is played, searched one level shallower with the negated
/// window, and taken back, raising `alpha` and stopping as soon as the
/// window closes. The final value is recorded in the table, classified
/// against the node's original window, before any tightening from the
/// probe. The position handed back agrees with the one handed in on
/// occupancy, move counter, hash and key table, and the returned value
/// always lies in the terminal-score range.
pub fn _negamax<S: State>(
    state: &mut S,
    depth: i64,
    alpha: i64,
    beta: i64,
    color: i64,
    tt: &mut HashMap<u64, Entry>,
) -> (r: i64)
    requires
        old(state).inv(),
        score_ready(old(state).m()),
        0 <= depth,
        color == 1 || color == -1,
        i64::MIN < alpha < beta,
        tt_wf(old(tt)@),
    ensures
        final(state).inv(),
        same_core(final(state).m(), old(state).m()),
        tt_wf(final(tt)@),
        -100 <= r <= 100,
        forall|h: u64| old(tt)@.contains_key(h) ==> #[trigger] final(tt)@.contains_key(h),
        ({
            let m0 = old(state).m();
            let pr = spec_probe(old(tt)@, m0.hash, depth as int, alpha as int, beta as int);
            &&& (pr.cut ==> r == pr.value && final(tt)@ == old(tt)@ && final(state).m() == m0)
            &&& (!pr.cut && (depth == 0 || spec_is_terminal(m0)) ==> r == (if color == 1 {
                spec_score(m0)
            } else {
                -spec_score(m0)
            }) && final(tt)@ == old(tt)@)
            &&& (!pr.cut && depth > 0 && !spec_is_terminal(m0) ==> final(tt)@.contains_key(m0.hash)
                && final(tt)@[m0.hash] == (Entry {
                flag: if r <= alpha {
                    Flag::UpperBound
                } else if r >= beta {
                    Flag::LowerBound
                } else {
                    Flag::Exact
                },
                depth,
                value: r,
            }))
        }),
    decreases depth,
{
    let ghost m0 = old(state).m();
    let ghost pr = spec_probe(old(tt)@, m0.hash, depth as int, alpha as int, beta as int);
    let alpha_orig = alpha;
    let beta_orig = beta;
    let mut alpha = alpha;
    let mut beta = beta;
    let hash = state.hash(color);
    match tt.get(&hash) {
        Some(tt_entry) => {
            if tt_entry.depth >= depth {
                match tt_entry.flag {
                    Flag::Exact => {
                        return tt_entry.value;
                    },
                    Flag::LowerBound => {
                        if tt_entry.value > alpha {
                            alpha = tt_entry.value;
                        }
                    },
                    Flag::UpperBound => {
                        if tt_entry.value < beta {
                            beta = tt_entry.value;
                        }
                    },
                }
                if alpha >= beta {
                    return tt_entry.value;
                }
            }
        },
        None => {},
    }
    proof {
        assert(!pr.cut && alpha as int == pr.alpha && beta as int == pr.beta);
    }
    let over = state.is_game_over();
    if depth == 0 || over {
        proof {
            state.inv_wf();
        }
        let s = state.score();
        return if color == 1 {
            s
        } else {
            -s
        };
    }
    let moves = state.next_moves();
    proof {
        state.inv_wf();
        lemma_not_full_has_move(state.m());
        lemma_legal_from_props(m0.p1, m0.p2, 0);
        assert(moves@ == legal_from(m0.p1, m0.p2, 0));
    }
    let mut value: i64 = i64::MIN;
    let mut idx: usize = 0;
    let ghost alpha_entry = alpha as int;
    while idx < moves.len() && alpha < beta
        invariant
            state.inv(),
            same_core(state.m(), m0),
            moves@ == legal_from(m0.p1, m0.p2, 0),
            tt_wf(tt@),
            forall|h: u64| old(tt)@.contains_key(h) ==> #[trigger] tt@.contains_key(h),
            0 <= idx <= moves@.len(),
            idx == 0 ==> value == i64::MIN && alpha == alpha_entry,
            idx > 0 ==> -100 <= value <= 100,
            alpha_entry <= alpha,
            i64::MIN < alpha,
            beta as int == pr.beta,
            i64::MIN < beta,
            0 < depth,
            color == 1 || color == -1,
        decreases moves@.len() - idx,
    {
        let ghost m_pre = state.m();
        proof {
            state.inv_wf();
            lemma_legal_from_props(m0.p1, m0.p2, 0);
        }
        let mv = moves[idx];
        proof {
            assert(moves@[idx as int] == legal_from(m0.p1, m0.p2, 0)[idx as int]);
            assert(0 <= mv < 63 && cell_empty(m0.p1, m0.p2, mv as int));
            assert(cell_empty(state.m().p1, state.m().p2, mv as int));
        }
        state.play(mv, color);
        let child = _negamax(state, depth - 1, -beta, -alpha, -color, tt);
        proof {
            lemma_play_undo_core(m_pre, state.m(), mv as int, color as int);
        }
        state.undo(mv, color);
        let nv = -child;
        if nv > value {
            value = nv;
        }
        if value > alpha {
            alpha = value;
        }
        idx = idx + 1;
    }
    let tt_entry = Entry {
        flag: if value <= alpha_orig {
            Flag::UpperBound
        } else if value >= beta_orig {
            Flag::LowerBound
        } else {
            Flag::Exact
        },
        depth,
        value,
    };
    tt.insert(hash, tt_entry);
    value
}


/// The recursive negamax step over the window `[alpha, beta)` with the
/// transposition table disabled: pure alpha-beta pruning.
///
/// Its value is proved fail-soft against the crate's spec-level search:
/// strictly inside the window it returns exactly `spec_negamax`, and
/// outside it returns a sound bound — so pruning never changes the result,
/// only the work.
pub fn _negamax_plain<S: State>(
    state: &mut S,
    depth: i64,
    alpha: i64,
    beta: i64,
    color: i64,
) -> (r: i64)
    requires
        old(state).inv(),
        score_ready(old(state).m()),
        0 <= depth,
        color == 1 || color == -1,
        i64::MIN < alpha < beta,
    ensures
        final(state).inv(),
        same_core(final(state).m(), old(state).m()),
        -100 <= r <= 100,
        fail_soft(
            r as int,
            spec_negamax(old(state).m(), depth as nat, color as int),
            alpha as int,
            beta as int,
        ),
    decreases depth,
{
    let ghost m0 = old(state).m();
    let over = state.is_game_over();
    if depth == 0 || over {
        proof {
            state.inv_wf();
        }
        let s = state.score();
        return if color == 1 {
            s
        } else {
            -s
        };
    }
    let moves = state.next_moves();
    proof {
        state.inv_wf();
        lemma_not_full_has_move(state.m());
        lemma_legal_from_props(m0.p1, m0.p2, 0);
        assert(moves@ == legal_from(m0.p1, m0.p2, 0));
    }
    let mut value: i64 = i64::MIN;
    let mut a = alpha;
    let mut idx: usize = 0;
    while idx < moves.len() && a < beta
        invariant
            state.inv(),
            same_core(state.m(), m0),
            moves@ == legal_from(m0.p1, m0.p2, 0),
            moves@ == legal_moves(m0),
            0 <= idx <= moves@.len(),
            idx == 0 ==> value == i64::MIN,
            idx > 0 ==> -100 <= value <= 100,
            alpha <= a,
            i64::MIN < a,
            a as int == (if value as int > alpha as int {
                value as int
            } else {
                alpha as int
            }),
            value < beta ==> forall|j: int|
                0 <= j < idx ==> -spec_negamax(
                    #[trigger] spec_play(m0, legal_moves(m0)[j] as int, color as int),
                    (depth - 1) as nat,
                    -(color as int),
                ) <= value as int,
            value > alpha ==> exists|j: int|
                0 <= j < idx && -spec_negamax(
                    #[trigger] spec_play(m0, legal_moves(m0)[j] as int, color as int),
                    (depth - 1) as nat,
                    -(color as int),
                ) >= value as int,
            0 < depth,
            color == 1 || color == -1,
            i64::MIN < alpha < beta,
        decreases moves@.len() - idx,
    {
        let ghost m_pre = state.m();
        proof {
            state.inv_wf();
            lemma_legal_from_props(m0.p1, m0.p2, 0);
        }
        let mv = moves[idx];
        proof {
            assert(moves@[idx as int] == legal_from(m0.p1, m0.p2, 0)[idx as int]);
            assert(0 <= mv < 63 && cell_empty(m0.p1, m0.p2, mv as int));
            assert(cell_empty(state.m().p1, state.m().p2, mv as int));
        }
        state.play(mv, color);
        let ghost pm = state.m();
        let child = _negamax_plain(state, depth - 1, -beta, -a, -color);
        proof {
            lemma_play_undo_core(m_pre, state.m(), mv as int, color as int);
        }
        state.undo(mv, color);
        let nv = -child;
        let ghost a_pre = a as int;
        let ghost value_pre = value as int;
        let ghost cm = spec_play(m0, mv as int, color as int);
        let ghost vj = -spec_negamax(cm, (depth - 1) as nat, -(color as int));
        proof {
            lemma_negamax_view(pm, cm, (depth - 1) as nat, -(color as int));
            assert((nv as int >= beta && vj >= nv) || (nv as int <= a_pre && vj <= nv) || vj
                == nv);
        }
        if nv > value {
            value = nv;
        }
        if value > a {
            a = value;
        }
        proof {
            if value < beta {
                assert forall|j: int| 0 <= j < idx + 1 implies -spec_negamax(
                    #[trigger] spec_play(m0, legal_moves(m0)[j] as int, color as int),
                    (depth - 1) as nat,
                    -(color as int),
                ) <= value as int by {
                    if j == idx {
                        assert(legal_moves(m0)[j] == mv);
                        assert(!(nv as int >= beta && vj >= nv));
                    }
                }
            }
            if value > alpha {
                if nv as int > value_pre {
                    assert(value == nv);
                    assert(-spec_negamax(
                        spec_play(m0, legal_moves(m0)[idx as int] as int, color as int),
                        (depth - 1) as nat,
                        -(color as int),
                    ) >= value as int);
                } else {
                    assert(value_pre == value as int && value_pre > alpha);
                    let j0 = choose|j: int|
                        0 <= j < idx && -spec_negamax(
                            #[trigger] spec_play(m0, legal_moves(m0)[j] as int, color as int),
                            (depth - 1) as nat,
                            -(color as int),
                        ) >= value_pre;
                    assert(-spec_negamax(
                        spec_play(m0, legal_moves(m0)[j0] as int, color as int),
                        (depth - 1) as nat,
                        -(color as int),
                    ) >= value as int);
                }
            }
        }
        idx = idx + 1;
    }
    proof {
        let nb = nega_best(m0, legal_moves(m0), 0, depth as nat, color as int);
        assert(spec_negamax(m0, depth as nat, color as int) == nb);
        if value < beta {
            lemma_nega_best_element(m0, 0, depth as nat, color as int);
            assert(nb <= value as int);
        }
        if value > alpha {
            let j0 = choose|j: int|
                0 <= j < idx && -spec_negamax(
                    #[trigger] spec_play(m0, legal_moves(m0)[j] as int, color as int),
                    (depth - 1) as nat,
                    -(color as int),
                ) >= value as int;
            lemma_nega_best_attains(m0, 0, j0, depth as nat, color as int);
            assert(nb >= value as int);
        }
    }
    value
}


/// One full-window pass of the table-free search: the exact reference the
/// transposition-table engine is measured against.
///
/// With legal moves at hand, the returned value is exactly the greatest
/// negated child search value — the one-pass spec fold, hence the spec
/// negamax value of the position when it is not already decided — and the
/// returned move is the earliest legal move attaining it. Pruning inside
/// the children changes only the work done, never this result.
pub fn negamax_plain<S: State>(state: &mut S, max_depth: i64, color: i64) -> (r: (i64, i64))
    requires
        old(state).inv(),
        0 <= max_depth,
        color == 1 || color == -1,
    ensures
        final(state).inv(),
        same_core(final(state).m(), old(state).m()),
        legal_moves(old(state).m()).len() == 0 ==> r.0 == -1 && r.1 == i64::MIN,
        legal_moves(old(state).m()).len() > 0 ==> {
            let m0 = old(state).m();
            &&& -100 <= r.1 <= 100
            &&& r.1 == nega_best(m0, legal_moves(m0), 0, (max_depth + 1) as nat, color as int)
            &&& (!spec_is_terminal(m0) ==> r.1 == spec_negamax(
                m0,
                (max_depth + 1) as nat,
                color as int,
            ))
            &&& (forall|j: int|
                0 <= j < legal_moves(m0).len() ==> -spec_negamax(
                    #[trigger] spec_play(m0, legal_moves(m0)[j] as int, color as int),
                    max_depth as nat,
                    -(color as int),
                ) <= r.1 as int)
            &&& (exists|j: int|
                0 <= j < legal_moves(m0).len() && legal_moves(m0)[j] == r.0 && -spec_negamax(
                    #[trigger] spec_play(m0, legal_moves(m0)[j] as int, color as int),
                    max_depth as nat,
                    -(color as int),
                ) == r.1 as int && (forall|j2: int|
                    0 <= j2 < j ==> -spec_negamax(
                        #[trigger] spec_play(m0, legal_moves(m0)[j2] as int, color as int),
                        max_depth as nat,
                        -(color as int),
                    ) < r.1 as int))
        },
{
    let ghost m0 = old(state).m();
    let alpha = i64::MIN + 1;
    let beta = i64::MAX;
    let moves = state.next_moves();
    proof {
        lemma_legal_from_props(m0.p1, m0.p2, 0);
        assert(moves@ == legal_from(m0.p1, m0.p2, 0));
    }
    let mut value: i64 = i64::MIN;
    let mut best_move: i64 = -1;
    let mut idx: usize = 0;
    while idx < moves.len()
        invariant
            state.inv(),
            same_core(state.m(), m0),
            moves@ == legal_from(m0.p1, m0.p2, 0),
            moves@ == legal_moves(m0),
            0 <= idx <= moves@.len(),
            idx == 0 ==> value == i64::MIN && best_move == -1,
            idx > 0 ==> -100 <= value <= 100,
            forall|j: int|
                0 <= j < idx ==> -spec_negamax(
                    #[trigger] spec_play(m0, legal_moves(m0)[j] as int, color as int),
                    max_depth as nat,
                    -(color as int),
                ) <= value as int,
            idx > 0 ==> exists|j: int|
                0 <= j < idx && legal_moves(m0)[j] == best_move && -spec_negamax(
                    #[trigger] spec_play(m0, legal_moves(m0)[j] as int, color as int),
                    max_depth as nat,
                    -(color as int),
                ) == value as int && (forall|j2: int|
                    0 <= j2 < j ==> -spec_negamax(
                        #[trigger] spec_play(m0, legal_moves(m0)[j2] as int, color as int),
                        max_depth as nat,
                        -(color as int),
                    ) < value as int),
            alpha == i64::MIN + 1,
            beta == i64::MAX,
            0 <= max_depth,
            color == 1 || color == -1,
        decreases moves@.len() - idx,
    {
        let ghost m_pre = state.m();
        proof {
            state.inv_wf();
            lemma_legal_from_props(m0.p1, m0.p2, 0);
        }
        let mv = moves[idx];
        proof {
            assert(moves@[idx as int] == legal_from(m0.p1, m0.p2, 0)[idx as int]);
            assert(0 <= mv < 63 && cell_empty(m0.p1, m0.p2, mv as int));
            assert(cell_empty(state.m().p1, state.m().p2, mv as int));
        }
        state.play(mv, color);
        let ghost pm = state.m();
        let child = _negamax_plain(state, max_depth, -beta, -alpha, -color);
        proof {
            lemma_play_undo_core(m_pre, state.m(), mv as int, color as int);
        }
        state.undo(mv, color);
        let new_value = -child;
        let ghost value_pre = value as int;
        let ghost cm = spec_play(m0, mv as int, color as int);
        proof {
            lemma_negamax_view(pm, cm, max_depth as nat, -(color as int));
            assert(new_value as int == -spec_negamax(cm, max_depth as nat, -(color as int)));
        }
        if new_value > value {
            value = new_value;
            best_move = mv;
            proof {
                assert(legal_moves(m0)[idx as int] == mv);
                assert(-spec_negamax(
                    spec_play(m0, legal_moves(m0)[idx as int] as int, color as int),
                    max_depth as nat,
                    -(color as int),
                ) == value as int);
            }
        } else {
            proof {
                let j0 = choose|j: int|
                    0 <= j < idx && legal_moves(m0)[j] == best_move && -spec_negamax(
                        #[trigger] spec_play(m0, legal_moves(m0)[j] as int, color as int),
                        max_depth as nat,
                        -(color as int),
                    ) == value_pre && (forall|j2: int|
                        0 <= j2 < j ==> -spec_negamax(
                            #[trigger] spec_play(m0, legal_moves(m0)[j2] as int, color as int),
                            max_depth as nat,
                            -(color as int),
                        ) < value_pre);
                assert(-spec_negamax(
                    spec_play(m0, legal_moves(m0)[j0] as int, color as int),
                    max_depth as nat,
                    -(color as int),
                ) == value as int);
            }
        }
        idx = idx + 1;
    }
    proof {
        if moves@.len() > 0 {
            let d1 = (max_depth + 1) as nat;
            lemma_nega_best_element(m0, 0, d1, color as int);
            let j0 = choose|j: int|
                0 <= j < idx && legal_moves(m0)[j] == best_move && -spec_negamax(
                    #[trigger] spec_play(m0, legal_moves(m0)[j] as int, color as int),
                    max_depth as nat,
                    -(color as int),
                ) == value as int;
            lemma_nega_best_attains(m0, 0, j0, d1, color as int);
            assert(value as int == nega_best(m0, legal_moves(m0), 0, d1, color as int));
        }
    }
    (best_move, value)
}

/// The root value `v` dominates the `j`-th child of `m0` whenever that
/// child is immediately decided (the pass's depth is zero or the move ends
/// the game) and no transposition entry stands under the child's hash in
/// `t`: the pass then saw the child's exact terminal value, so `v` is at
/// least that value negated into the root player's viewpoint.
pub open spec fn beats_decided_child(
    m0: BoardModel,
    color: int,
    j: int,
    depth: int,
    t: Map<u64, Entry>,
    v: int,
) -> bool {
    let c = spec_play(m0, legal_moves(m0)[j] as int, color);
    ((depth == 0 || spec_is_terminal(c)) && !t.contains_key(c.hash)) ==> v >= (if color == 1 {
        spec_score(c)
    } else {
        -spec_score(c)
    })
}

/// One full-window negamax pass from the root: every legal move is tried
/// with the full window, and the move with the strictly greatest negated
/// child value wins, earliest enumerated move first on ties.
///
/// When the position has a legal move, the returned move is one of them,
/// the returned value lies in the terminal-score range, and it is at least
/// the negated value of every immediately decided child whose hash the
/// table does not hold; a zero-depth pass over an empty table is fully
/// pinned: its value is exactly the one-ply fold of the children's terminal
/// scores. With no legal move the sentinel pair `(-1, i64::MIN)` comes
/// back. The position is handed back with its occupancy, move counter,
/// hash and key table intact.
pub fn negamax<S: State>(
    state: &mut S,
    max_depth: i64,
    color: i64,
    tt: &mut HashMap<u64, Entry>,
) -> (r: (i64, i64))
    requires
        old(state).inv(),
        0 <= max_depth,
        color == 1 || color == -1,
        tt_wf(old(tt)@),
    ensures
        final(state).inv(),
        same_core(final(state).m(), old(state).m()),
        tt_wf(final(tt)@),
        forall|h: u64| old(tt)@.contains_key(h) ==> #[trigger] final(tt)@.contains_key(h),
        legal_moves(old(state).m()).len() > 0 ==> legal_moves(old(state).m()).contains(r.0)
            && -100 <= r.1 <= 100,
        legal_moves(old(state).m()).len() == 0 ==> r.0 == -1 && r.1 == i64::MIN,
        forall|j: int|
            0 <= j < legal_moves(old(state).m()).len() ==> #[trigger] beats_decided_child(
                old(state).m(),
                color as int,
                j,
                max_depth as int,
                final(tt)@,
                r.1 as int,
            ),
        old(tt)@ == Map::<u64, Entry>::empty() && max_depth == 0 && legal_moves(
            old(state).m(),
        ).len() > 0 ==> r.1 == nega_best(
            old(state).m(),
            legal_moves(old(state).m()),
            0,
            1,
            color as int,
        ),
{
    let ghost m0 = old(state).m();
    let ghost empty0 = old(tt)@ == Map::<u64, Entry>::empty() && max_depth == 0;
    let alpha = i64::MIN + 1;
    let beta = i64::MAX;
    let moves = state.next_moves();
    proof {
        lemma_legal_from_props(m0.p1, m0.p2, 0);
        assert(moves@ == legal_from(m0.p1, m0.p2, 0));
    }
    let mut value: i64 = i64::MIN;
    let mut best_move: i64 = -1;
    let mut idx: usize = 0;
    while idx < moves.len()
        invariant
            state.inv(),
            same_core(state.m(), m0),
            moves@ == legal_from(m0.p1, m0.p2, 0),
            tt_wf(tt@),
            forall|h: u64| old(tt)@.contains_key(h) ==> #[trigger] tt@.contains_key(h),
            0 <= idx <= moves@.len(),
            idx == 0 ==> value == i64::MIN && best_move == -1,
            idx > 0 ==> -100 <= value <= 100 && legal_moves(m0).contains(best_move),
            forall|j: int|
                0 <= j < idx ==> #[trigger] beats_decided_child(
                    m0,
                    color as int,
                    j,
                    max_depth as int,
                    tt@,
                    value as int,
                ),
            empty0 == (old(tt)@ == Map::<u64, Entry>::empty() && max_depth == 0),
            empty0 ==> tt@ == old(tt)@,
            empty0 && idx > 0 ==> exists|j0: int|
                0 <= j0 < idx && value as int == -spec_negamax(
                    #[trigger] spec_play(m0, moves@[j0] as int, color as int),
                    0,
                    -(color as int),
                ),
            empty0 ==> forall|j: int|
                0 <= j < idx ==> value as int >= -spec_negamax(
                    #[trigger] spec_play(m0, moves@[j] as int, color as int),
                    0,
                    -(color as int),
                ),
            alpha == i64::MIN + 1,
            beta == i64::MAX,
            0 <= max_depth,
            color == 1 || color == -1,
        decreases moves@.len() - idx,
    {
        let ghost m_pre = state.m();
        proof {
            state.inv_wf();
            lemma_legal_from_props(m0.p1, m0.p2, 0);
        }
        let mv = moves[idx];
        proof {
            assert(moves@[idx as int] == legal_from(m0.p1, m0.p2, 0)[idx as int]);
            assert(0 <= mv < 63 && cell_empty(m0.p1, m0.p2, mv as int));
            assert(cell_empty(state.m().p1, state.m().p2, mv as int));
        }
        let ghost tt_before = tt@;
        let ghost value_before = value as int;
        state.play(mv, color);
        let ghost a = state.m();
        let child = _negamax(state, max_depth, -beta, -alpha, -color, tt);
        proof {
            lemma_play_undo_core(m_pre, state.m(), mv as int, color as int);
        }
        state.undo(mv, color);
        let new_value = -child;
        if new_value > value {
            value = new_value;
            best_move = mv;
            proof {
                assert(legal_moves(m0).contains(mv)) by {
                    assert(legal_moves(m0)[idx as int] == mv);
                }
            }
        }
        proof {
            let c = spec_play(m0, mv as int, color as int);
            assert(a == spec_play(m_pre, mv as int, color as int));
            assert(a.p1 == c.p1 && a.p2 == c.p2 && a.num_moves == c.num_moves && a.last_move
                == c.last_move && a.hash == c.hash && a.keys == c.keys);
            assert(spec_score(a) == spec_score(c));
            assert(spec_is_terminal(a) == spec_is_terminal(c));
            assert forall|j: int| 0 <= j < idx + 1 implies #[trigger] beats_decided_child(
                m0,
                color as int,
                j,
                max_depth as int,
                tt@,
                value as int,
            ) by {
                if j < idx {
                    assert(beats_decided_child(
                        m0,
                        color as int,
                        j,
                        max_depth as int,
                        tt_before,
                        value_before,
                    ));
                } else {
                    assert(legal_moves(m0)[j] == mv);
                    if (max_depth == 0 || spec_is_terminal(c)) && !tt@.contains_key(c.hash) {
                        assert(!tt_before.contains_key(a.hash));
                        assert(!spec_probe(
                            tt_before,
                            a.hash,
                            max_depth as int,
                            (-beta) as int,
                            (-alpha) as int,
                        ).cut);
                        assert(child == (if -color == 1 {
                            spec_score(a)
                        } else {
                            -spec_score(a)
                        }));
                    }
                }
            }
            if empty0 {
                assert(!Map::<u64, Entry>::empty().dom().contains(a.hash));
                assert(!tt_before.contains_key(a.hash));
                assert(!spec_probe(
                    tt_before,
                    a.hash,
                    max_depth as int,
                    (-beta) as int,
                    (-alpha) as int,
                ).cut);
                assert(child == (if -color == 1 {
                    spec_score(a)
                } else {
                    -spec_score(a)
                }));
                assert(spec_negamax(c, 0, -(color as int)) == (-(color as int)) * spec_score(c));
                if color == 1 {
                    assert((-1) * spec_score(c) == -spec_score(c));
                } else {
                    assert(1 * spec_score(c) == spec_score(c));
                }
                assert(new_value as int == -spec_negamax(c, 0, -(color as int)));
                assert forall|j: int| 0 <= j < idx + 1 implies value as int >= -spec_negamax(
                    #[trigger] spec_play(m0, moves@[j] as int, color as int),
                    0,
                    -(color as int),
                ) by {
                    if j == idx {
                        assert(value >= new_value);
                    }
                }
                if new_value as int > value_before {
                    assert(value as int == -spec_negamax(
                        spec_play(m0, moves@[idx as int] as int, color as int),
                        0,
                        -(color as int),
                    ));
                } else {
                    let j0 = choose|j0: int|
                        0 <= j0 < idx && value_before == -spec_negamax(
                            #[trigger] spec_play(m0, moves@[j0] as int, color as int),
                            0,
                            -(color as int),
                        );
                    assert(value as int == -spec_negamax(
                        spec_play(m0, moves@[j0] as int, color as int),
                        0,
                        -(color as int),
                    ));
                }
            }
        }
        idx = idx + 1;
    }
    proof {
        if empty0 && moves@.len() > 0 {
            lemma_nega_best_element(m0, 0, 1, color as int);
            let j0 = choose|j0: int|
                0 <= j0 < moves@.len() && value as int == -spec_negamax(
                    #[trigger] spec_play(m0, moves@[j0] as int, color as int),
                    0,
                    -(color as int),
                );
            lemma_nega_best_attains(m0, 0, j0, 1, color as int);
            let je = choose|j: int|
                0 <= j < legal_moves(m0).len() && nega_best(m0, legal_moves(m0), 0, 1, color as int)
                    == -spec_negamax(
                    #[trigger] spec_play(m0, legal_moves(m0)[j] as int, color as int),
                    0,
                    -(color as int),
                );
            assert(value as int >= -spec_negamax(
                spec_play(m0, moves@[je] as int, color as int),
                0,
                -(color as int),
            ));
            assert(value as int == nega_best(m0, legal_moves(m0), 0, 1, color as int));
        }
    }
    (best_move, value)
}

/// Pick a move for the maximizing player under a wall-clock budget, by
/// iterative deepening: one full negamax pass at each depth from 2 upward,
/// keeping the answer of the last pass that began within the budget, and
/// falling back on the first legal move if even the first pass could not
/// start in time.
///
/// Returns (cell index of the chosen move, its negamax value, the deepest
/// completed depth); the last two are advisory diagnostics. The chosen cell
/// is always one of the position's legal moves; when no pass began in time
/// the answer is exactly the first legal move with a zero value and depth
/// zero, and when one did, the value dominates every immediately decided
/// child whose hash the table does not hold. The position is handed back
/// with its occupancy, move counter, hash and key table intact.
pub fn choose_move<S: State>(state: &mut S, tt: &mut HashMap<u64, Entry>, budget_ms: u64) -> (r: (
    i64,
    i64,
    i64,
))
    requires
        old(state).inv(),
        !spec_is_terminal(old(state).m()),
        tt_wf(old(tt)@),
    ensures
        final(state).inv(),
        same_core(final(state).m(), old(state).m()),
        tt_wf(final(tt)@),
        legal_moves(old(state).m()).contains(r.0),
        -100 <= r.1 <= 100,
        0 <= r.2 <= 9,
        r.2 == 0 ==> r.0 == legal_moves(old(state).m())[0] && r.1 == 0,
        r.2 != 0 ==> 2 <= r.2 && (forall|j: int|
            0 <= j < legal_moves(old(state).m()).len() ==> #[trigger] beats_decided_child(
                old(state).m(),
                1,
                j,
                r.2 as int,
                final(tt)@,
                r.1 as int,
            )),
{
    let ghost m0 = old(state).m();
    proof {
        state.inv_wf();
    }
    let start = instant_now();
    let moves = state.next_moves();
    proof {
        lemma_not_full_has_move(m0);
        assert(moves@ == legal_moves(m0));
        assert(legal_moves(m0).contains(moves@[0]));
    }
    let mut best_move: i64 = moves[0];
    let mut best_value: i64 = 0;
    let mut depth_done: i64 = 0;
    let mut d: i64 = 2;
    while d < 10
        invariant
            state.inv(),
            same_core(state.m(), m0),
            tt_wf(tt@),
            legal_moves(m0).contains(best_move),
            -100 <= best_value <= 100,
            0 <= depth_done <= 9,
            depth_done == 0 ==> best_move == legal_moves(m0)[0] && best_value == 0,
            depth_done != 0 ==> 2 <= depth_done && (forall|j: int|
                0 <= j < legal_moves(m0).len() ==> #[trigger] beats_decided_child(
                    m0,
                    1,
                    j,
                    depth_done as int,
                    tt@,
                    best_value as int,
                )),
            2 <= d <= 10,
        decreases 10 - d,
    {
        let elapsed = millis_of(&elapsed_of(&start));
        if elapsed > budget_ms {
            break ;
        }
        let ghost m_pass = state.m();
        let pass = negamax(state, d, 1, tt);
        proof {
            assert(legal_moves(m_pass) == legal_moves(m0));
            assert(legal_moves(m0).len() > 0);
        }
        best_move = pass.0;
        best_value = pass.1;
        depth_done = d;
        proof {
            assert forall|j: int| 0 <= j < legal_moves(m0).len() implies
                #[trigger] beats_decided_child(
                m0,
                1,
                j,
                depth_done as int,
                tt@,
                best_value as int,
            ) by {
                assert(beats_decided_child(m_pass, 1, j, d as int, tt@, pass.1 as int));
                let cm = spec_play(m0, legal_moves(m0)[j] as int, 1);
                let cp = spec_play(m_pass, legal_moves(m_pass)[j] as int, 1);
                assert(cm.p1 == cp.p1 && cm.p2 == cp.p2 && cm.num_moves == cp.num_moves
                    && cm.last_move == cp.last_move && cm.hash == cp.hash && cm.keys == cp.keys);
                assert(spec_score(cm) == spec_score(cp));
                assert(spec_is_terminal(cm) == spec_is_terminal(cp));
            }
        }
        d = d + 1;
    }
    (best_move, best_value, depth_done)
}

} // verus!
