//! Search-engine behaviour: negamax against a brute-force oracle, with and
//! without a warm transposition table, and the iterative-deepening driver.

use std::collections::HashMap;
use connect_four_engine::bits::{index, reverse};
use connect_four_engine::search::{_negamax, choose_move, negamax, negamax_plain};
use connect_four_engine::state::{Connect4, State};
use connect_four_engine::table::Entry;

/// The colour pattern used to fill boards without ever connecting four.
fn drawn_color(x: i64, y: i64) -> i64 {
    if (x / 2 + y) % 2 == 0 {
        1
    } else {
        -1
    }
}

/// Plain negamax without pruning and without a table: the oracle.
fn brute_negamax(state: &mut Connect4, depth: i64, color: i64) -> i64 {
    if depth == 0 || state.is_game_over() {
        let s = state.score();
        return if color == 1 { s } else { -s };
    }
    let mut value = i64::MIN;
    for mv in state.next_moves() {
        state.play(mv, color);
        let child = -brute_negamax(state, depth - 1, -color);
        state.undo(mv, color);
        if child > value {
            value = child;
        }
    }
    value
}

/// Root of the oracle: best (move, value) with earliest-move tie-breaks,
/// mirroring the engine's root pass.
fn brute_root(state: &mut Connect4, max_depth: i64, color: i64) -> (i64, i64) {
    let mut value = i64::MIN;
    let mut best_move = -1;
    for mv in state.next_moves() {
        state.play(mv, color);
        let child = -brute_negamax(state, max_depth, -color);
        state.undo(mv, color);
        if child > value {
            value = child;
            best_move = mv;
        }
    }
    (best_move, value)
}

/// A nearly full, undecided board: everything filled but six top cells.
fn truncated_board(seed: u64) -> Connect4 {
    let mut game = Connect4::new_seeded(seed);
    for x in 0..9 {
        for y in (1..7).rev() {
            game.play(index(x, y), drawn_color(x, y));
        }
    }
    for x in 0..3 {
        game.play(index(x, 0), drawn_color(x, 0));
    }
    game
}

#[test]
fn oracle_agreement_on_truncated_board() {
    // Full-depth alpha-beta search with the transposition table returns
    // exactly what exhaustive search without any table returns.
    let mut engine_board = truncated_board(23);
    let mut oracle_board = truncated_board(23);
    let tt: &mut HashMap<u64, Entry> = &mut HashMap::new();
    let (engine_move, engine_value) = negamax(&mut engine_board, 6, 1, tt);
    let (oracle_move, oracle_value) = brute_root(&mut oracle_board, 6, 1);
    assert_eq!(engine_move, oracle_move);
    assert_eq!(engine_value, oracle_value);
}

#[test]
fn plain_search_matches_the_oracle() {
    // The verified table-free search agrees with an independently written
    // brute-force root on the same position.
    let mut verified = truncated_board(59);
    let mut oracle = truncated_board(59);
    let plain = negamax_plain(&mut verified, 6, 1);
    let brute = brute_root(&mut oracle, 6, 1);
    assert_eq!(plain, brute);
}

#[test]
fn table_on_equals_table_off() {
    // The engine with its transposition table returns what the verified
    // table-free search returns: caching changes speed, not the result.
    let mut engine_board = truncated_board(61);
    let mut plain_board = truncated_board(61);
    let tt: &mut HashMap<u64, Entry> = &mut HashMap::new();
    let engine = negamax(&mut engine_board, 6, 1, tt);
    let plain = negamax_plain(&mut plain_board, 6, 1);
    assert_eq!(engine, plain);
}

#[test]
fn warm_table_does_not_change_the_answer() {
    // Searching twice over the same table: the cached pass must return the
    // same best move and value as the cold one.
    let mut game = truncated_board(29);
    let tt: &mut HashMap<u64, Entry> = &mut HashMap::new();
    let cold = negamax(&mut game, 6, 1, tt);
    assert!(tt.len() > 0);
    let warm = negamax(&mut game, 6, 1, tt);
    assert_eq!(cold, warm);
}

#[test]
fn search_leaves_the_position_intact() {
    let mut game = Connect4::new_seeded(31);
    game.play(54, 1);
    game.play(55, -1);
    let p1 = game.p1;
    let p2 = game.p2;
    let hash = game.cached_hash;
    let num_moves = game.num_moves;
    let tt: &mut HashMap<u64, Entry> = &mut HashMap::new();
    let _ = negamax(&mut game, 3, 1, tt);
    assert_eq!(game.p1, p1);
    assert_eq!(game.p2, p2);
    assert_eq!(game.cached_hash, hash);
    assert_eq!(game.num_moves, num_moves);
}

#[test]
fn depth_four_on_empty_grid_stays_in_range() {
    // Scenario: empty 9 x 7 grid, depth 4, no time limit.
    let mut game = Connect4::new_seeded(37);
    let tt: &mut HashMap<u64, Entry> = &mut HashMap::new();
    let (best_move, value) = negamax(&mut game, 4, 1, tt);
    let (column, _) = reverse(best_move);
    assert!((0..9).contains(&column));
    assert!((-100..=100).contains(&value));
    assert_eq!(game.num_moves, 0);
}

#[test]
fn engine_completes_three_in_a_row() {
    // Scenario: three in a row with an open fourth cell; the engine takes
    // the winning drop and reports the early-win score.
    let mut game = Connect4::new_seeded(41);
    game.play(54, 1);
    game.play(45, -1);
    game.play(55, 1);
    game.play(46, -1);
    game.play(56, 1);
    game.play(47, -1);
    let tt: &mut HashMap<u64, Entry> = &mut HashMap::new();
    let (cell, value, depth) = choose_move(&mut game, tt, 50);
    assert_eq!(cell, 57);
    assert_eq!(value, 93);
    assert!(depth >= 2);
    assert_eq!(game.num_moves, 6);
}

#[test]
fn plain_search_takes_the_winning_drop() {
    // The table-free search must pick the completing cell: its contract
    // pins the value to the greatest negated child value and the move to
    // the earliest attaining it.
    let mut game = Connect4::new_seeded(67);
    game.play(54, 1);
    game.play(45, -1);
    game.play(55, 1);
    game.play(46, -1);
    game.play(56, 1);
    game.play(47, -1);
    let (cell, value) = negamax_plain(&mut game, 2, 1);
    assert_eq!(cell, 57);
    assert_eq!(value, 93);
}

#[test]
fn zero_depth_pass_scores_children_exactly() {
    // A zero-depth pass over an empty table folds the children's terminal
    // scores one ply out: the immediate win is seen and valued 100 - 7.
    let mut game = Connect4::new_seeded(53);
    game.play(54, 1);
    game.play(45, -1);
    game.play(55, 1);
    game.play(46, -1);
    game.play(56, 1);
    game.play(47, -1);
    let tt: &mut HashMap<u64, Entry> = &mut HashMap::new();
    let (cell, value) = negamax(&mut game, 0, 1, tt);
    assert_eq!(cell, 57);
    assert_eq!(value, 93);
}

#[test]
fn tiny_budget_still_returns_a_legal_move() {
    let mut game = Connect4::new_seeded(43);
    let tt: &mut HashMap<u64, Entry> = &mut HashMap::new();
    let (cell, value, _) = choose_move(&mut game, tt, 0);
    assert!((54..=62).contains(&cell));
    assert!((-100..=100).contains(&value));
}

#[test]
fn recursive_step_scores_terminal_positions_from_the_mover() {
    let mut game = Connect4::new_seeded(47);
    game.play(54, 1);
    game.play(45, -1);
    game.play(55, 1);
    game.play(46, -1);
    game.play(56, 1);
    game.play(47, -1);
    game.play(57, 1);
    let tt: &mut HashMap<u64, Entry> = &mut HashMap::new();
    // First player just won; from the second player's viewpoint the
    // terminal score is negated.
    let value = _negamax(&mut game, 2, i64::MIN + 1, i64::MAX, -1, tt);
    assert_eq!(value, -93);
}
