//! The computer opponents: a seeded random chooser, a greedy chooser that
//! maximizes flipped stones, and a positional-weight chooser.
use vstd::prelude::*;

use crate::board::{
    flip_count, has_legal_move, in_bounds, is_legal, lex_lt, Board, Grid, Point,
};
use crate::stone::Stone;

verus! {

/// Folds a coordinate into the corner-side half: `0..4` stay, `4..8`
/// mirror back, so every cell maps onto the corner quadrant.
pub open spec fn quadrant_fold(v: int) -> int {
    if v <= 3 {
        v
    } else {
        7 - v
    }
}

/// The positional weight of the corner quadrant, symmetric in its two
/// arguments: corners are precious, the cells touching them dangerous.
pub open spec fn quadrant_weight(a: int, b: int) -> int {
    let lo = if a <= b {
        a
    } else {
        b
    };
    let hi = if a <= b {
        b
    } else {
        a
    };
    if lo == 0 {
        if hi == 0 {
            100
        } else if hi == 1 {
            -20
        } else if hi == 2 {
            10
        } else {
            5
        }
    } else if lo == 1 {
        if hi == 1 {
            -50
        } else {
            -2
        }
    } else if lo == 2 {
        -1
    } else {
        0
    }
}

/// The classic static weight of the cell `(x, y)`.
pub open spec fn pos_weight(x: int, y: int) -> int {
    quadrant_weight(quadrant_fold(x), quadrant_fold(y))
}

/// The weight table respects the board's symmetries: mirroring either
/// coordinate or swapping the two leaves every weight unchanged.
pub proof fn lemma_weight_symmetric(x: int, y: int)
    requires
        in_bounds(x, y),
    ensures
        pos_weight(x, y) == pos_weight(7 - x, y),
        pos_weight(x, y) == pos_weight(x, 7 - y),
        pos_weight(x, y) == pos_weight(y, x),
{
}

/// What the weighted chooser maximizes: flipped stones plus the placed
/// cell's positional weight.
pub open spec fn move_score(g: Grid, c: Stone, x: int, y: int) -> int {
    flip_count(g, c, x, y) + pos_weight(x, y)
}

/// The greedy opponent: plays the legal move that flips the most stones.
pub struct SimpleComputer {
    color: Stone,
}

/// The positional opponent: plays the legal move with the best flip count
/// plus weight score.
pub struct WeightedComputer {
    color: Stone,
}

/// The random opponent: picks a legal move from a seeded deterministic
/// generator, so games can be replayed under the same seed.
pub struct RandomComputer {
    color: Stone,
    state: u64,
}

impl SimpleComputer {
    /// The color this opponent plays.
    pub closed spec fn spec_color(&self) -> Stone {
        self.color
    }

    /// Builds a greedy opponent playing `color`.
    pub fn new(color: Stone) -> (r: SimpleComputer)
        ensures
            r.spec_color() == color,
    {
        SimpleComputer { color }
    }

    /// The move that flips the most stones; ties go to the lowest `(x, y)`
    /// in row-major order. `None` exactly when `color` has no legal move.
    pub fn decide(&self, board: &Board) -> (r: Option<Point>)
        requires
            board.wf(),
        ensures
            r is Some <==> has_legal_move(board@, self.spec_color()),
            r matches Some(p) ==> is_legal(board@, self.spec_color(), p.x as int, p.y as int)
                && forall|xx: int, yy: int|
                #[trigger] is_legal(board@, self.spec_color(), xx, yy) ==> flip_count(
                    board@,
                    self.spec_color(),
                    xx,
                    yy,
                ) <= flip_count(board@, self.spec_color(), p.x as int, p.y as int) && (flip_count(
                    board@,
                    self.spec_color(),
                    xx,
                    yy,
                ) == flip_count(board@, self.spec_color(), p.x as int, p.y as int) ==> !lex_lt(
                    xx,
                    yy,
                    p.x as int,
                    p.y as int,
                )),
    {
        let c = self.color;
        let moves = board.legal_moves_for(c);
        if moves.len() == 0 {
            return None;
        }
        let ghost g = board@;
        let mut best: Point = moves[0];
        let mut best_count: usize = board.compute_flips(c, best.x, best.y).len();
        let mut k: usize = 1;
        while k < moves.len()
            invariant
                board.wf(),
                g == board@,
                c == self.spec_color(),
                1 <= k <= moves@.len(),
                forall|j: int|
                    0 <= j < moves@.len() ==> is_legal(
                        g,
                        c,
                        (#[trigger] moves@[j]).x as int,
                        moves@[j].y as int,
                    ),
                forall|j1: int, j2: int|
                    0 <= j1 < j2 < moves@.len() ==> lex_lt(
                        (#[trigger] moves@[j1]).x as int,
                        moves@[j1].y as int,
                        (#[trigger] moves@[j2]).x as int,
                        moves@[j2].y as int,
                    ),
                exists|j: int| 0 <= j < k && moves@[j] == best,
                is_legal(g, c, best.x as int, best.y as int),
                best_count as int == flip_count(g, c, best.x as int, best.y as int),
                forall|j: int|
                    0 <= j < k ==> flip_count(
                        g,
                        c,
                        (#[trigger] moves@[j]).x as int,
                        moves@[j].y as int,
                    ) <= best_count as int,
                forall|j: int|
                    0 <= j < k && flip_count(
                        g,
                        c,
                        (#[trigger] moves@[j]).x as int,
                        moves@[j].y as int,
                    ) == best_count as int ==> !lex_lt(
                        moves@[j].x as int,
                        moves@[j].y as int,
                        best.x as int,
                        best.y as int,
                    ),
            decreases moves@.len() - k,
        {
            let cand = moves[k];
            let cnt = board.compute_flips(c, cand.x, cand.y).len();
            if cnt > best_count {
                best = cand;
                best_count = cnt;
            }
            k += 1;
        }
        proof {
            assert forall|xx: int, yy: int|
                #[trigger] is_legal(g, c, xx, yy) implies flip_count(g, c, xx, yy) <= flip_count(
                g,
                c,
                best.x as int,
                best.y as int,
            ) && (flip_count(g, c, xx, yy) == flip_count(g, c, best.x as int, best.y as int)
                ==> !lex_lt(xx, yy, best.x as int, best.y as int)) by {
                let j = choose|j: int|
                    0 <= j < moves@.len() && (#[trigger] moves@[j]).x as int == xx
                        && moves@[j].y as int == yy;
            }
        }
        Some(best)
    }
}

impl WeightedComputer {
    /// The color this opponent plays.
    pub closed spec fn spec_color(&self) -> Stone {
        self.color
    }

    /// Builds a positional opponent playing `color`.
    pub fn new(color: Stone) -> (r: WeightedComputer)
        ensures
            r.spec_color() == color,
    {
        WeightedComputer { color }
    }

    /// The positional weight of the cell `(x, y)`.
    fn weight_at(x: usize, y: usize) -> (r: i64)
        requires
            x < 8,
            y < 8,
        ensures
            r as int == pos_weight(x as int, y as int),
    {
        let a = if x <= 3 {
            x
        } else {
            7 - x
        };
        let b = if y <= 3 {
            y
        } else {
            7 - y
        };
        let lo = if a <= b {
            a
        } else {
            b
        };
        let hi = if a <= b {
            b
        } else {
            a
        };
        if lo == 0 {
            if hi == 0 {
                100
            } else if hi == 1 {
                -20
            } else if hi == 2 {
                10
            } else {
                5
            }
        } else if lo == 1 {
            if hi == 1 {
                -50
            } else {
                -2
            }
        } else if lo == 2 {
            -1
        } else {
            0
        }
    }

    /// The move with the best flip count plus weight score; ties go to the
    /// lowest `(x, y)` in row-major order. `None` exactly when `color` has
    /// no legal move.
    pub fn decide(&self, board: &Board) -> (r: Option<Point>)
        requires
            board.wf(),
        ensures
            r is Some <==> has_legal_move(board@, self.spec_color()),
            r matches Some(p) ==> is_legal(board@, self.spec_color(), p.x as int, p.y as int)
                && forall|xx: int, yy: int|
                #[trigger] is_legal(board@, self.spec_color(), xx, yy) ==> move_score(
                    board@,
                    self.spec_color(),
                    xx,
                    yy,
                ) <= move_score(board@, self.spec_color(), p.x as int, p.y as int) && (move_score(
                    board@,
                    self.spec_color(),
                    xx,
                    yy,
                ) == move_score(board@, self.spec_color(), p.x as int, p.y as int) ==> !lex_lt(
                    xx,
                    yy,
                    p.x as int,
                    p.y as int,
                )),
    {
        let c = self.color;
        let moves = board.legal_moves_for(c);
        if moves.len() == 0 {
            return None;
        }
        let ghost g = board@;
        let mut best: Point = moves[0];
        let flips0 = board.compute_flips(c, best.x, best.y).len();
        proof {
            crate::board::lemma_flip_count_le(g, c, best.x as int, best.y as int, 8);
            crate::board::lemma_flip_count_upto_nonneg(g, c, best.x as int, best.y as int, 8);
        }
        let mut best_score: i64 = flips0 as i64 + Self::weight_at(best.x, best.y);
        let mut k: usize = 1;
        while k < moves.len()
            invariant
                board.wf(),
                g == board@,
                c == self.spec_color(),
                1 <= k <= moves@.len(),
                forall|j: int|
                    0 <= j < moves@.len() ==> is_legal(
                        g,
                        c,
                        (#[trigger] moves@[j]).x as int,
                        moves@[j].y as int,
                    ),
                forall|j1: int, j2: int|
                    0 <= j1 < j2 < moves@.len() ==> lex_lt(
                        (#[trigger] moves@[j1]).x as int,
                        moves@[j1].y as int,
                        (#[trigger] moves@[j2]).x as int,
                        moves@[j2].y as int,
                    ),
                exists|j: int| 0 <= j < k && moves@[j] == best,
                is_legal(g, c, best.x as int, best.y as int),
                best_score as int == move_score(g, c, best.x as int, best.y as int),
                forall|j: int|
                    0 <= j < k ==> move_score(
                        g,
                        c,
                        (#[trigger] moves@[j]).x as int,
                        moves@[j].y as int,
                    ) <= best_score as int,
                forall|j: int|
                    0 <= j < k && move_score(
                        g,
                        c,
                        (#[trigger] moves@[j]).x as int,
                        moves@[j].y as int,
                    ) == best_score as int ==> !lex_lt(
                        moves@[j].x as int,
                        moves@[j].y as int,
                        best.x as int,
                        best.y as int,
                    ),
            decreases moves@.len() - k,
        {
            let cand = moves[k];
            let flips = board.compute_flips(c, cand.x, cand.y).len();
            proof {
                crate::board::lemma_flip_count_le(g, c, cand.x as int, cand.y as int, 8);
                crate::board::lemma_flip_count_upto_nonneg(g, c, cand.x as int, cand.y as int, 8);
            }
            let score = flips as i64 + Self::weight_at(cand.x, cand.y);
            if score > best_score {
                best = cand;
                best_score = score;
            }
            k += 1;
        }
        proof {
            assert forall|xx: int, yy: int|
                #[trigger] is_legal(g, c, xx, yy) implies move_score(g, c, xx, yy) <= move_score(
                g,
                c,
                best.x as int,
                best.y as int,
            ) && (move_score(g, c, xx, yy) == move_score(g, c, best.x as int, best.y as int)
                ==> !lex_lt(xx, yy, best.x as int, best.y as int)) by {
                let j = choose|j: int|
                    0 <= j < moves@.len() && (#[trigger] moves@[j]).x as int == xx
                        && moves@[j].y as int == yy;
            }
        }
        Some(best)
    }
}

impl RandomComputer {
    /// The color this opponent plays.
    pub closed spec fn spec_color(&self) -> Stone {
        self.color
    }

    /// Builds a random opponent playing `color`, with a fixed default
    /// seed.
    pub fn new(color: Stone) -> (r: RandomComputer)
        ensures
            r.spec_color() == color,
    {
        RandomComputer { color, state: 0x9e3779b97f4a7c15 }
    }

    /// Builds a random opponent playing `color` with the given seed, so a
    /// test can pin the chosen move.
    pub fn with_seed(color: Stone, seed: u64) -> (r: RandomComputer)
        ensures
            r.spec_color() == color,
    {
        RandomComputer { color, state: seed }
    }

    /// One xorshift scramble of the seed.
    fn scramble(s: u64) -> u64 {
        let s1 = s ^ (s << 13);
        let s2 = s1 ^ (s1 >> 7);
        s2 ^ (s2 << 17)
    }

    /// A legal move picked by the seeded generator; `None` exactly when
    /// `color` has no legal move.
    pub fn decide(&self, board: &Board) -> (r: Option<Point>)
        requires
            board.wf(),
        ensures
            r is Some <==> has_legal_move(board@, self.spec_color()),
            r matches Some(p) ==> is_legal(board@, self.spec_color(), p.x as int, p.y as int),
    {
        let moves = board.legal_moves_for(self.color);
        if moves.len() == 0 {
            return None;
        }
        let pick = Self::scramble(self.state) % (moves.len() as u64);
        assert(pick < moves@.len());
        Some(moves[pick as usize])
    }
}

} // verus!
