//! Board-state behaviour: bit primitives, play/undo round trips, hashing,
//! move generation, and terminal scoring along all four axes.

use connect_four_engine::bits::{clear, index, is_set, reverse};
use connect_four_engine::state::{Connect4, State};

#[test]
fn bit_primitives_round_trip() {
    assert_eq!(index(0, 0), 0);
    assert_eq!(index(8, 6), 62);
    assert_eq!(reverse(62), (8, 6));
    assert_eq!(reverse(0), (0, 0));
    assert_eq!(reverse(index(4, 3)), (4, 3));
    let v = connect_four_engine::bits::set(0, 5);
    assert!(is_set(v, 5));
    assert!(!is_set(v, 6));
    assert_eq!(clear(v, 5), 0);
    let w = connect_four_engine::bits::set(connect_four_engine::bits::set(0, 10), 20);
    assert_eq!(clear(w, 10), connect_four_engine::bits::set(0, 20));
}

#[test]
fn fresh_board_is_empty() {
    let mut game = Connect4::new_seeded(42);
    assert_eq!(game.num_moves, 0);
    assert_eq!(game.p1, 0);
    assert_eq!(game.p2, 0);
    assert_eq!(game.cached_hash, 0);
    assert!(!game.is_game_over());
    assert_eq!(game.score(), 0);
}

#[test]
fn randomly_keyed_board_plays_and_unwinds() {
    let mut game = Connect4::new();
    assert_eq!(game.cached_hash, 0);
    game.play(54, 1);
    assert_eq!(game.num_moves, 1);
    game.undo(54, 1);
    assert_eq!(game.cached_hash, 0);
    assert_eq!(game.num_moves, 0);
}

#[test]
fn seeded_boards_agree() {
    let mut a = Connect4::new_seeded(7);
    let mut b = Connect4::new_seeded(7);
    a.play(54, 1);
    b.play(54, 1);
    assert_eq!(a.cached_hash, b.cached_hash);
    assert_ne!(a.cached_hash, 0);
    a.play(55, -1);
    b.play(55, -1);
    assert_eq!(a.cached_hash, b.cached_hash);
}

#[test]
fn play_undo_restores_board() {
    // Round trip: apply then revert restores masks, counter, hash and the
    // (still invalid) score cache.
    let mut game = Connect4::new_seeded(1);
    game.play(54, 1);
    game.play(55, -1);
    let p1 = game.p1;
    let p2 = game.p2;
    let num_moves = game.num_moves;
    let hash = game.cached_hash;
    let cached = game.is_score_cached;
    game.play(45, 1);
    assert_ne!(game.cached_hash, hash);
    game.undo(45, 1);
    assert_eq!(game.p1, p1);
    assert_eq!(game.p2, p2);
    assert_eq!(game.num_moves, num_moves);
    assert_eq!(game.cached_hash, hash);
    assert_eq!(game.is_score_cached, cached);
}

#[test]
fn hash_returns_to_zero_on_full_unwind() {
    let mut game = Connect4::new_seeded(9);
    game.play(54, 1);
    game.play(45, -1);
    game.undo(45, -1);
    game.undo(54, 1);
    assert_eq!(game.cached_hash, 0);
    assert_eq!(game.num_moves, 0);
}

#[test]
fn transposition_same_position_same_hash() {
    // Two move orders reaching the same occupancy with the same side to
    // move collide by design.
    let mut a = Connect4::new_seeded(3);
    a.play(54, 1);
    a.play(55, -1);
    let mut b = Connect4::new_seeded(3);
    b.play(55, -1);
    b.play(54, 1);
    assert_eq!(a.cached_hash, b.cached_hash);
}

#[test]
fn next_moves_empty_board_is_bottom_row() {
    let game = Connect4::new_seeded(5);
    let moves = game.next_moves();
    let bottom: Vec<i64> = (0..9).map(|x| 54 + x).collect();
    assert_eq!(moves, bottom);
}

#[test]
fn next_moves_respects_gravity() {
    let mut game = Connect4::new_seeded(5);
    game.play(54, 1);
    let moves = game.next_moves();
    assert_eq!(moves[0], 45);
    assert_eq!(moves.len(), 9);
    assert_eq!(moves[1], 55);
}

#[test]
fn full_column_yields_no_move() {
    let mut game = Connect4::new_seeded(5);
    // Fill column 0 bottom to top, alternating so no one connects four.
    let mut color = 1;
    for y in (0..7).rev() {
        game.play(index(0, y), color);
        color = -color;
    }
    assert_eq!(game.lowest_empty_cell(0), -1);
    let moves = game.next_moves();
    assert_eq!(moves.len(), 8);
    assert_eq!(moves[0], 55);
    assert!(moves.iter().all(|&c| c % 9 != 0));
}

#[test]
fn is_occupied_tracks_both_players() {
    let mut game = Connect4::new_seeded(5);
    game.play(54, 1);
    game.play(55, -1);
    assert!(game.is_occupied(54));
    assert!(game.is_occupied(55));
    assert!(!game.is_occupied(56));
}

#[test]
fn horizontal_win_scores_early_win_higher() {
    let mut game = Connect4::new_seeded(11);
    game.play(54, 1);
    game.play(45, -1);
    game.play(55, 1);
    game.play(46, -1);
    game.play(56, 1);
    game.play(47, -1);
    game.play(57, 1);
    // Seven stones, first player connects four: 100 - 7.
    assert_eq!(game.score(), 93);
    assert!(game.is_game_over());
}

#[test]
fn vertical_win_detected() {
    let mut game = Connect4::new_seeded(11);
    game.play(54, 1);
    game.play(55, -1);
    game.play(45, 1);
    game.play(56, -1);
    game.play(36, 1);
    game.play(57, -1);
    game.play(27, 1);
    assert_eq!(game.score(), 93);
}

#[test]
fn diagonal_win_detected() {
    let mut game = Connect4::new_seeded(11);
    // First player climbs the (0,6)-(1,5)-(2,4)-(3,3) diagonal.
    game.play(index(0, 6), 1);
    game.play(index(1, 6), -1);
    game.play(index(1, 5), 1);
    game.play(index(2, 6), -1);
    game.play(index(2, 5), -1);
    game.play(index(2, 4), 1);
    game.play(index(3, 6), -1);
    game.play(index(3, 5), -1);
    game.play(index(3, 4), -1);
    game.play(index(3, 3), 1);
    assert_eq!(game.score(), 90);
    assert!(game.is_game_over());
}

#[test]
fn second_player_win_scores_negative() {
    let mut game = Connect4::new_seeded(11);
    game.play(54, -1);
    game.play(45, 1);
    game.play(55, -1);
    game.play(46, 1);
    game.play(56, -1);
    game.play(47, 1);
    game.play(57, -1);
    assert_eq!(game.score(), -93);
}

#[test]
fn sign_symmetry_on_swapped_colours() {
    // The same stones with every colour flipped score the exact negation.
    let cells = [54i64, 45, 55, 46, 56, 47, 57];
    let colors = [1i64, -1, 1, -1, 1, -1, 1];
    let mut a = Connect4::new_seeded(2);
    let mut b = Connect4::new_seeded(2);
    for k in 0..cells.len() {
        a.play(cells[k], colors[k]);
        b.play(cells[k], -colors[k]);
    }
    let sa = a.score();
    let sb = b.score();
    assert_eq!(sa, -sb);
    assert_eq!(sa.abs(), sb.abs());
}

#[test]
fn score_is_idempotent_and_cached() {
    let mut game = Connect4::new_seeded(13);
    game.play(54, 1);
    game.play(55, -1);
    assert!(!game.is_score_cached);
    let first = game.score();
    assert!(game.is_score_cached);
    let hash = game.cached_hash;
    let second = game.score();
    assert_eq!(first, second);
    assert!(game.is_score_cached);
    assert_eq!(game.cached_hash, hash);
    game.play(56, 1);
    assert!(!game.is_score_cached);
}

/// The colour pattern used to fill boards without ever connecting four:
/// blocks of two columns, shifted one row at a time.
fn drawn_color(x: i64, y: i64) -> i64 {
    if (x / 2 + y) % 2 == 0 {
        1
    } else {
        -1
    }
}

#[test]
fn full_board_without_connection_is_a_draw() {
    let mut game = Connect4::new_seeded(17);
    for x in 0..9 {
        for y in (0..7).rev() {
            game.play(index(x, y), drawn_color(x, y));
        }
    }
    assert_eq!(game.num_moves, 63);
    assert_eq!(game.score(), 0);
    assert!(game.is_game_over());
    assert_eq!(game.next_moves().len(), 0);
}
