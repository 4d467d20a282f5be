//! Turn management on top of the board: move validation, skip detection
//! and terminal-state resolution.
use vstd::prelude::*;

use crate::board::{
    cell, game_over, grid_wf, has_legal_move, in_bounds, is_grid_after, is_legal, move_ok,
    count_stones, Board, Grid, Point,
};
use crate::stone::{opposite, Stone};

verus! {

/// Everything that can go wrong, or end, when a stone is put down. Every
/// variant is recoverable: the game value stays usable.
#[derive(Clone, Copy, Debug, PartialEq, Eq, Structural)]
pub enum ReversiError {
    /// A coordinate lies outside `[0, 8)`.
    IndexOutOfBound,
    /// The target cell already holds a stone.
    StoneAlreadyPlaced,
    /// The placement is not a legal move.
    InvalidMove,
    /// The placement would flip no stone (the same condition as
    /// `InvalidMove`, reported by the board's move application).
    NoStoneToFlip,
    /// The game is over and the named color holds strictly more stones.
    GameOverWithWinner(Stone),
    /// The game is over with both colors holding equally many stones.
    GameOverWithDraw,
    /// The move succeeded but the named color has no legal reply; the turn
    /// stays with the mover.
    NextPlayerCantPutStone(Stone),
}

/// The terminal outcome of grid `g`: the color with strictly more stones
/// wins; equal counts draw.
pub open spec fn outcome_of(g: Grid) -> ReversiError {
    if count_stones(g, Stone::Black) > count_stones(g, Stone::White) {
        ReversiError::GameOverWithWinner(Stone::Black)
    } else if count_stones(g, Stone::White) > count_stones(g, Stone::Black) {
        ReversiError::GameOverWithWinner(Stone::White)
    } else {
        ReversiError::GameOverWithDraw
    }
}

/// A whole game of Reversi: a board plus whose turn it is. Black moves
/// first. The terminal state is not stored: it is derived from the board,
/// so it can never disagree with it.
pub struct SimpleReversiGame {
    board: Board,
    turn: Stone,
}

impl SimpleReversiGame {
    /// The board as a mathematical grid.
    pub closed spec fn spec_board(&self) -> Grid {
        self.board@
    }

    /// The color to move.
    pub closed spec fn spec_turn(&self) -> Stone {
        self.turn
    }

    /// The game's internal invariant.
    pub open spec fn wf(&self) -> bool {
        grid_wf(self.spec_board())
    }

    /// Starts a game: the standard opening position, Black to move.
    pub fn new() -> (r: SimpleReversiGame)
        ensures
            r.wf(),
            r.spec_turn() == Stone::Black,
            cell(r.spec_board(), 3, 3) == Some(Stone::White),
            cell(r.spec_board(), 4, 4) == Some(Stone::White),
            cell(r.spec_board(), 3, 4) == Some(Stone::Black),
            cell(r.spec_board(), 4, 3) == Some(Stone::Black),
            forall|x: int, y: int|
                in_bounds(x, y) && !((x == 3 || x == 4) && (y == 3 || y == 4))
                    ==> #[trigger] cell(r.spec_board(), x, y) is None,
    {
        SimpleReversiGame { board: Board::new(), turn: Stone::Black }
    }

    /// Rebuilds a game from a board and the color to move, for example
    /// from a snapshot read back at the host boundary.
    pub fn from_parts(board: Board, turn: Stone) -> (r: SimpleReversiGame)
        requires
            board.wf(),
        ensures
            r.wf(),
            r.spec_board() == board@,
            r.spec_turn() == turn,
    {
        SimpleReversiGame { board, turn }
    }

    /// The board, for read-only queries.
    pub fn board(&self) -> (r: &Board)
        ensures
            r@ == self.spec_board(),
    {
        &self.board
    }

    /// The color to move.
    pub fn turn(&self) -> (r: Stone)
        ensures
            r == self.spec_turn(),
    {
        self.turn
    }

    /// Whether the color to move may put a stone on `(x, y)`; a pure
    /// query without any mutation.
    pub fn check_can_put(&self, x: usize, y: usize) -> (r: bool)
        requires
            self.wf(),
        ensures
            r == is_legal(self.spec_board(), self.spec_turn(), x as int, y as int),
    {
        self.board.check_move(self.turn, x, y)
    }

    /// All legal moves of the color to move, in strictly increasing
    /// row-major order on `(x, y)`.
    pub fn get_can_put_stones(&self) -> (r: Vec<Point>)
        requires
            self.wf(),
        ensures
            forall|j: int|
                0 <= j < r@.len() ==> is_legal(
                    self.spec_board(),
                    self.spec_turn(),
                    (#[trigger] r@[j]).x as int,
                    r@[j].y as int,
                ),
            forall|xx: int, yy: int|
                #[trigger] is_legal(self.spec_board(), self.spec_turn(), xx, yy) ==> exists|j: int|
                    0 <= j < r@.len() && (#[trigger] r@[j]).x as int == xx && r@[j].y as int == yy,
            forall|j1: int, j2: int|
                0 <= j1 < j2 < r@.len() ==> crate::board::lex_lt(
                    (#[trigger] r@[j1]).x as int,
                    r@[j1].y as int,
                    (#[trigger] r@[j2]).x as int,
                    r@[j2].y as int,
                ),
            r@.len() == 0 <==> !has_legal_move(self.spec_board(), self.spec_turn()),
    {
        self.board.legal_moves_for(self.turn)
    }

    /// Whether the game is over: neither color has a legal move.
    pub fn is_game_over(&self) -> (r: bool)
        requires
            self.wf(),
        ensures
            r == game_over(self.spec_board()),
    {
        self.board.is_game_over()
    }

    /// The terminal outcome of the current board by stone count.
    fn outcome(&self) -> (r: ReversiError)
        requires
            self.wf(),
        ensures
            r == outcome_of(self.spec_board()),
    {
        let b = self.board.count(Stone::Black);
        let w = self.board.count(Stone::White);
        if b > w {
            ReversiError::GameOverWithWinner(Stone::Black)
        } else if w > b {
            ReversiError::GameOverWithWinner(Stone::White)
        } else {
            ReversiError::GameOverWithDraw
        }
    }

    /// The color to move puts a stone on `(x, y)`.
    ///
    /// On a board that is already finished, reports the outcome and does
    /// nothing. An illegal placement is rejected without any mutation.
    /// A legal placement flips exactly the run-scan's cells; then the turn
    /// passes to the opponent if they can answer, stays with the mover if
    /// only the opponent is stuck (a skip, reported with the skipped
    /// color), and otherwise the game is over with the stone-count
    /// outcome.
    pub fn put_stone(&mut self, x: usize, y: usize) -> (r: Result<(), ReversiError>)
        requires
            old(self).wf(),
        ensures
            final(self).wf(),
            game_over(old(self).spec_board()) ==> r == Err::<(), ReversiError>(
                outcome_of(old(self).spec_board()),
            ) && final(self).spec_board() == old(self).spec_board() && final(self).spec_turn()
                == old(self).spec_turn(),
            !game_over(old(self).spec_board()) && !in_bounds(x as int, y as int) ==> r == Err::<
                (),
                ReversiError,
            >(ReversiError::IndexOutOfBound) && final(self).spec_board() == old(self).spec_board()
                && final(self).spec_turn() == old(self).spec_turn(),
            !game_over(old(self).spec_board()) && in_bounds(x as int, y as int) && cell(
                old(self).spec_board(),
                x as int,
                y as int,
            ) is Some ==> r == Err::<(), ReversiError>(ReversiError::StoneAlreadyPlaced) && final(self).spec_board() == old(self).spec_board() && final(self).spec_turn() == old(self).spec_turn(),
            !game_over(old(self).spec_board()) && in_bounds(x as int, y as int) && cell(
                old(self).spec_board(),
                x as int,
                y as int,
            ) is None && !is_legal(old(self).spec_board(), old(self).spec_turn(), x as int, y as int)
                ==> r == Err::<(), ReversiError>(ReversiError::NoStoneToFlip) && final(self).spec_board() == old(self).spec_board() && final(self).spec_turn() == old(self).spec_turn(),
            !game_over(old(self).spec_board()) && is_legal(
                old(self).spec_board(),
                old(self).spec_turn(),
                x as int,
                y as int,
            ) ==> {
                let g0 = old(self).spec_board();
                let t = old(self).spec_turn();
                let g2 = final(self).spec_board();
                &&& is_grid_after(g0, t, x as int, y as int, g2)
                &&& has_legal_move(g2, opposite(t)) ==> final(self).spec_turn() == opposite(t) && r
                    == Ok::<(), ReversiError>(())
                &&& !has_legal_move(g2, opposite(t)) && has_legal_move(g2, t) ==> final(self).spec_turn() == t && r == Err::<(), ReversiError>(
                    ReversiError::NextPlayerCantPutStone(opposite(t)),
                )
                &&& !has_legal_move(g2, opposite(t)) && !has_legal_move(g2, t) ==> final(self).spec_turn() == t && game_over(g2) && r == Err::<(), ReversiError>(outcome_of(g2))
            },
    {
        if self.board.is_game_over() {
            return Err(self.outcome());
        }
        let turn = self.turn;
        match self.board.apply_move(x, y, turn) {
            Err(e) => Err(e),
            Ok(_flips) => {
                let opp = turn.flip();
                if self.board.has_any_move(opp) {
                    self.turn = opp;
                    Ok(())
                } else if self.board.has_any_move(turn) {
                    Err(ReversiError::NextPlayerCantPutStone(opp))
                } else {
                    Err(self.outcome())
                }
            },
        }
    }
}

} // verus!
