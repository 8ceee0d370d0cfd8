//! The board state itself: the `State` capability interface that the search
//! engine works against, and `Connect4`, its one concrete implementation —
//! a bitboard with an incrementally maintained Zobrist hash and a cached
//! terminal score.

use vstd::prelude::*;
use crate::bits::{cell_empty, index, is_set, occ, reverse, clear};
use crate::bits::lemma_count_zero;
use crate::board::{
    arm, cache_score, legal_from, legal_moves, lowest_empty_from, score_ready, spec_is_terminal,
    spec_play, spec_score, spec_undo, wf, wins_through, BoardModel,
};
use crate::board::{lemma_wf_play, lemma_wf_undo};
use crate::zobrist::{
    lemma_zh_empty, lemma_xor_shuffle, mix_next, mix_state, random_u64, seeded_key, NUM_KEYS,
};

verus! {

/// What the search engine asks of a game position: move enumeration, a
/// position hash, terminal scoring, and an in-place play/undo pair whose
/// effect on the abstract board is pinned down exactly.
pub trait State: Sized {
    /// The abstract value of this position.
    spec fn m(&self) -> BoardModel;

    /// The representation invariant.
    spec fn inv(&self) -> bool;

    /// The representation invariant pins the model down to a well-formed
    /// board.
    proof fn inv_wf(&self)
        requires
            self.inv(),
        ensures
            wf(self.m()),
    ;

    /// All legal drop targets, ordered by column: for each column that still
    /// has room, its lowest empty cell and no other.
    fn next_moves(&self) -> (r: Vec<i64>)
        requires
            self.inv(),
        ensures
            r@ == legal_moves(self.m()),
    ;

    /// The maintained position hash, which always equals the from-scratch
    /// recomputation over the key table.
    fn hash(&self, color: i64) -> (r: u64)
        requires
            self.inv(),
        ensures
            r == self.m().hash,
    ;

    /// The terminal score of the position, answered from the cache when the
    /// cache is valid and cached otherwise.
    fn score(&mut self) -> (r: i64)
        requires
            old(self).inv(),
            score_ready(old(self).m()),
        ensures
            final(self).inv(),
            final(self).m() == cache_score(old(self).m()),
            r == spec_score(old(self).m()),
    ;

    /// Whether the game is over: the board is full or the last move decided.
    fn is_game_over(&mut self) -> (r: bool)
        requires
            old(self).inv(),
            score_ready(old(self).m()),
        ensures
            final(self).inv(),
            final(self).m() == cache_score(old(self).m()),
            r == spec_is_terminal(old(self).m()),
    ;

    /// Drop a stone of `color` on the empty cell `index`.
    fn play(&mut self, index: i64, color: i64)
        requires
            old(self).inv(),
            0 <= index < 63,
            color == 1 || color == -1,
            cell_empty(old(self).m().p1, old(self).m().p2, index as int),
        ensures
            final(self).inv(),
            final(self).m() == spec_play(old(self).m(), index as int, color as int),
            score_ready(final(self).m()),
    ;

    /// Take a stone of `color` back off cell `index`: the exact inverse of
    /// the most recent matching `play`.
    fn undo(&mut self, index: i64, color: i64)
        requires
            old(self).inv(),
            0 <= index < 63,
            color == 1 || color == -1,
            color == 1 ==> occ(old(self).m().p1, index as int),
            color == -1 ==> occ(old(self).m().p2, index as int),
        ensures
            final(self).inv(),
            final(self).m() == spec_undo(old(self).m(), index as int, color as int),
    ;
}

/// A 9 x 7 drop-four position: one occupancy bitboard per player, the move
/// counter, the last move, the incrementally maintained Zobrist hash and the
/// terminal-score cache, plus the key table drawn at construction.
pub struct Connect4 {
    /// Occupancy of the first (maximizing) player.
    pub p1: u64,
    /// Occupancy of the second player.
    pub p2: u64,
    /// Cell index of the most recent move; -1 right after an undo.
    pub last_move: i64,
    /// Number of stones on the board.
    pub num_moves: i64,
    /// The maintained position hash.
    pub cached_hash: u64,
    /// Whether `cached_score` is valid.
    pub is_score_cached: bool,
    /// The cached terminal score.
    pub cached_score: i64,
    /// Zobrist keys: two per cell, then the side-to-move key.
    pub keys: Vec<u64>,
}

impl Connect4 {
    /// Build an untouched board over the given key table.
    pub fn with_keys(keys: Vec<u64>) -> (r: Connect4)
        requires
            keys@.len() == 127,
        ensures
            r.inv(),
            r.m() == (BoardModel {
                p1: 0u64,
                p2: 0u64,
                last_move: 0int,
                num_moves: 0int,
                hash: 0u64,
                score_cached: false,
                cached_score: 0int,
                keys: keys@,
            }),
    {
        proof {
            lemma_count_zero();
            lemma_zh_empty(keys@, 0);
            lemma_xor_shuffle(0u64, 0u64, 0u64, 0u64);
        }
        Connect4 {
            p1: 0,
            p2: 0,
            last_move: 0,
            num_moves: 0,
            cached_hash: 0,
            is_score_cached: false,
            cached_score: 0,
            keys,
        }
    }

    /// Build an untouched board over a key table drawn from the process-wide
    /// random source.
    pub fn new() -> (r: Connect4)
        ensures
            r.inv(),
            r.m().p1 == 0 && r.m().p2 == 0 && r.m().last_move == 0 && r.m().num_moves == 0,
            r.m().hash == 0,
            !r.m().score_cached,
            r.m().cached_score == 0,
            r.m().keys.len() == 127,
    {
        let mut keys: Vec<u64> = Vec::new();
        let mut i: usize = 0;
        while i < NUM_KEYS
            invariant
                keys@.len() == i,
                i <= 127,
            decreases 127 - i,
        {
            keys.push(random_u64());
            i = i + 1;
        }
        Connect4::with_keys(keys)
    }

    /// Build an untouched board over a key table derived deterministically
    /// from `seed`, for reproducible play and testing.
    pub fn new_seeded(seed: u64) -> (r: Connect4)
        ensures
            r.inv(),
            r.m().p1 == 0 && r.m().p2 == 0 && r.m().last_move == 0 && r.m().num_moves == 0,
            r.m().hash == 0,
            !r.m().score_cached,
            r.m().cached_score == 0,
            r.m().keys.len() == 127,
            forall|i: int| 0 <= i < 127 ==> r.m().keys[i] == seeded_key(seed, i as nat),
    {
        let mut keys: Vec<u64> = Vec::new();
        let mut s: u64 = seed;
        let mut i: usize = 0;
        while i < NUM_KEYS
            invariant
                keys@.len() == i,
                i <= 127,
                s == mix_state(seed, i as nat),
                forall|j: int| 0 <= j < i ==> keys@[j] == seeded_key(seed, j as nat),
            decreases 127 - i,
        {
            let next = mix_next(s);
            proof {
                assert(mix_state(seed, (i + 1) as nat) == crate::zobrist::spec_mix(
                    mix_state(seed, i as nat),
                ).0);
            }
            s = next.0;
            keys.push(next.1);
            i = i + 1;
        }
        Connect4::with_keys(keys)
    }

    /// The lowest empty cell of column `x` — the gravity drop target — or -1
    /// if the column is full.
    pub fn lowest_empty_cell(&self, x: i64) -> (r: i64)
        requires
            0 <= x < 9,
        ensures
            r == lowest_empty_from(self.m().p1, self.m().p2, x as int, 6),
    {
        let mut y: i64 = 6;
        while y >= 0
            invariant
                0 <= x < 9,
                -1 <= y <= 6,
                lowest_empty_from(self.m().p1, self.m().p2, x as int, 6) == lowest_empty_from(
                    self.m().p1,
                    self.m().p2,
                    x as int,
                    y as int,
                ),
            decreases y + 1,
        {
            let c = index(x, y);
            if !is_set(self.p1, c) && !is_set(self.p2, c) {
                return c;
            }
            y = y - 1;
        }
        -1
    }

    /// Whether either player occupies `cell`; lets an adapter translate an
    /// opponent's column into a concrete cell before calling `play`.
    pub fn is_occupied(&self, cell: i64) -> (r: bool)
        requires
            0 <= cell < 63,
        ensures
            r == !cell_empty(self.m().p1, self.m().p2, cell as int),
    {
        is_set(self.p1, cell) || is_set(self.p2, cell)
    }
}

/// How many contiguous stones of `mask` lie on the ray from (x, y) in
/// direction (dx, dy), starting one step out and walking at most 3 steps.
fn ray_count(mask: u64, x: i64, y: i64, dx: i64, dy: i64) -> (r: i64)
    requires
        0 <= x < 9,
        0 <= y < 7,
        -1 <= dx <= 1,
        -1 <= dy <= 1,
    ensures
        r == arm(mask, x as int, y as int, dx as int, dy as int, 3),
        0 <= r <= 3,
{
    let x1 = x + dx;
    let y1 = y + dy;
    if x1 < 0 || x1 >= 9 || y1 < 0 || y1 >= 7 {
        return 0;
    }
    if !is_set(mask, index(x1, y1)) {
        return 0;
    }
    assert(arm(mask, x as int, y as int, dx as int, dy as int, 3) == 1 + arm(
        mask,
        x1 as int,
        y1 as int,
        dx as int,
        dy as int,
        2,
    ));
    let x2 = x1 + dx;
    let y2 = y1 + dy;
    if x2 < 0 || x2 >= 9 || y2 < 0 || y2 >= 7 {
        return 1;
    }
    if !is_set(mask, index(x2, y2)) {
        return 1;
    }
    assert(arm(mask, x1 as int, y1 as int, dx as int, dy as int, 2) == 1 + arm(
        mask,
        x2 as int,
        y2 as int,
        dx as int,
        dy as int,
        1,
    ));
    let x3 = x2 + dx;
    let y3 = y2 + dy;
    if x3 < 0 || x3 >= 9 || y3 < 0 || y3 >= 7 {
        return 2;
    }
    if !is_set(mask, index(x3, y3)) {
        return 2;
    }
    assert(arm(mask, x2 as int, y2 as int, dx as int, dy as int, 1) == 1 + arm(
        mask,
        x3 as int,
        y3 as int,
        dx as int,
        dy as int,
        0,
    ));
    3
}

impl State for Connect4 {
    open spec fn m(&self) -> BoardModel {
        BoardModel {
            p1: self.p1,
            p2: self.p2,
            last_move: self.last_move as int,
            num_moves: self.num_moves as int,
            hash: self.cached_hash,
            score_cached: self.is_score_cached,
            cached_score: self.cached_score as int,
            keys: self.keys@,
        }
    }

    open spec fn inv(&self) -> bool {
        wf(self.m())
    }

    proof fn inv_wf(&self) {
    }

    fn next_moves(&self) -> (r: Vec<i64>) {
        let ghost p1 = self.m().p1;
        let ghost p2 = self.m().p2;
        let mut next: Vec<i64> = Vec::new();
        let mut x: i64 = 0;
        proof {
            assert(next@ + legal_from(p1, p2, 0) =~= legal_from(p1, p2, 0));
        }
        while x < 9
            invariant
                0 <= x <= 9,
                self.m().p1 == p1,
                self.m().p2 == p2,
                next@ + legal_from(p1, p2, x as int) == legal_from(p1, p2, 0),
            decreases 9 - x,
        {
            let c = self.lowest_empty_cell(x);
            proof {
                assert(legal_from(p1, p2, x as int) == (if lowest_empty_from(p1, p2, x as int, 6)
                    >= 0 {
                    seq![lowest_empty_from(p1, p2, x as int, 6) as i64]
                } else {
                    Seq::<i64>::empty()
                }) + legal_from(p1, p2, x as int + 1));
            }
            if c >= 0 {
                let ghost before = next@;
                next.push(c);
                proof {
                    assert(next@ + legal_from(p1, p2, x as int + 1) =~= before + legal_from(
                        p1,
                        p2,
                        x as int,
                    ));
                }
            } else {
                proof {
                    assert(next@ + legal_from(p1, p2, x as int + 1) =~= next@ + legal_from(
                        p1,
                        p2,
                        x as int,
                    ));
                }
            }
            x = x + 1;
        }
        proof {
            assert(legal_from(p1, p2, 9) =~= Seq::<i64>::empty());
            assert(next@ =~= next@ + legal_from(p1, p2, 9));
        }
        next
    }

    fn hash(&self, _color: i64) -> (r: u64) {
        self.cached_hash
    }

    fn score(&mut self) -> (r: i64) {
        if self.is_score_cached {
            proof {
                assert(cache_score(old(self).m()) =~= old(self).m());
            }
            return self.cached_score;
        }
        if self.num_moves == 0 {
            self.is_score_cached = true;
            self.cached_score = 0;
            proof {
                assert(final(self).m() =~= cache_score(old(self).m()));
            }
            return 0;
        }
        let lm = self.last_move;
        let xy = reverse(lm);
        let x = xy.0;
        let y = xy.1;
        let mine = is_set(self.p1, lm);
        let mask = if mine {
            self.p1
        } else {
            self.p2
        };
        let horiz = 1 + ray_count(mask, x, y, 1, 0) + ray_count(mask, x, y, -1, 0);
        let vert = 1 + ray_count(mask, x, y, 0, 1) + ray_count(mask, x, y, 0, -1);
        let diag = 1 + ray_count(mask, x, y, 1, 1) + ray_count(mask, x, y, -1, -1);
        let anti = 1 + ray_count(mask, x, y, 1, -1) + ray_count(mask, x, y, -1, 1);
        proof {
            assert(wins_through(mask, lm as int) == (horiz >= 4 || vert >= 4 || diag >= 4 || anti
                >= 4));
        }
        self.is_score_cached = true;
        if horiz >= 4 || vert >= 4 || diag >= 4 || anti >= 4 {
            let sc = 100 - self.num_moves;
            self.cached_score = if mine {
                sc
            } else {
                -sc
            };
        } else {
            self.cached_score = 0;
        }
        proof {
            assert(spec_score(final(self).m()) == spec_score(old(self).m()));
            assert(final(self).m() =~= cache_score(old(self).m()));
        }
        self.cached_score
    }

    fn is_game_over(&mut self) -> (r: bool) {
        let s = self.score();
        self.num_moves == crate::bits::WIDTH * crate::bits::HEIGHT || s != 0
    }

    fn play(&mut self, index: i64, color: i64) {
        proof {
            lemma_wf_play(old(self).m(), index as int, color as int);
        }
        self.is_score_cached = false;
        self.num_moves = self.num_moves + 1;
        self.last_move = index;
        let ki: usize = 2 * (index as usize) + (if color == 1 {
            0
        } else {
            1
        });
        let k = self.keys[ki];
        if color == 1 {
            self.p1 = crate::bits::set(self.p1, index);
        } else {
            self.p2 = crate::bits::set(self.p2, index);
        }
        self.cached_hash = self.cached_hash ^ k;
        let side = self.keys[126];
        self.cached_hash = self.cached_hash ^ side;
        proof {
            assert(final(self).m() =~= spec_play(old(self).m(), index as int, color as int));
        }
    }

    fn undo(&mut self, index: i64, color: i64) {
        proof {
            lemma_wf_undo(old(self).m(), index as int, color as int);
        }
        self.is_score_cached = false;
        let side = self.keys[126];
        self.cached_hash = self.cached_hash ^ side;
        let ki: usize = 2 * (index as usize) + (if color == 1 {
            0
        } else {
            1
        });
        let k = self.keys[ki];
        if color == 1 {
            self.p1 = clear(self.p1, index);
        } else {
            self.p2 = clear(self.p2, index);
        }
        self.cached_hash = self.cached_hash ^ k;
        self.last_move = -1;
        self.num_moves = self.num_moves - 1;
        proof {
            assert(final(self).m() =~= spec_undo(old(self).m(), index as int, color as int));
        }
    }
}

} // verus!
