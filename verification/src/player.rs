//! Seat management: which color is played by a human and which by a
//! computer opponent, and the single query the host uses to obtain a
//! computer move.
use vstd::prelude::*;

use crate::board::{has_legal_move, is_legal, Board, Point};
use crate::stone::Stone;
use crate::strategy::{RandomComputer, SimpleComputer, WeightedComputer};

verus! {

/// One computer opponent of any of the three kinds.
pub enum Computer {
    Random(RandomComputer),
    Simple(SimpleComputer),
    Weighted(WeightedComputer),
}

impl Computer {
    /// The color this opponent plays.
    pub open spec fn spec_color(&self) -> Stone {
        match self {
            Computer::Random(c) => c.spec_color(),
            Computer::Simple(c) => c.spec_color(),
            Computer::Weighted(c) => c.spec_color(),
        }
    }

    /// The opponent's chosen move: a legal one, or `None` exactly when
    /// its color has no legal move.
    pub fn decide(&self, board: &Board) -> (r: Option<Point>)
        requires
            board.wf(),
        ensures
            r is Some <==> has_legal_move(board@, self.spec_color()),
            r matches Some(p) ==> is_legal(board@, self.spec_color(), p.x as int, p.y as int),
    {
        match self {
            Computer::Random(c) => c.decide(board),
            Computer::Simple(c) => c.decide(board),
            Computer::Weighted(c) => c.decide(board),
        }
    }
}

/// A seat: either awaiting external input, or occupied by a computer
/// opponent.
pub enum PlayerType {
    Human,
    Computer(Computer),
}

/// Binds each color to its seat. Stateless beyond the two assignments:
/// `decide` may be called any number of times without side effects.
pub struct PlayerManager {
    black: PlayerType,
    white: PlayerType,
}

impl PlayerManager {
    /// The seat that plays color `c`.
    pub closed spec fn spec_seat(&self, c: Stone) -> PlayerType {
        if c == Stone::Black {
            self.black
        } else {
            self.white
        }
    }

    /// Each computer seat plays the color it sits on.
    pub open spec fn wf(&self) -> bool {
        forall|c: Stone|
            (#[trigger] self.spec_seat(c)) matches PlayerType::Computer(com) ==> com.spec_color()
                == c
    }

    /// Binds the two seats; a computer seat must play its own color.
    pub fn new(black: PlayerType, white: PlayerType) -> (r: PlayerManager)
        requires
            black matches PlayerType::Computer(com) ==> com.spec_color() == Stone::Black,
            white matches PlayerType::Computer(com) ==> com.spec_color() == Stone::White,
        ensures
            r.wf(),
            r.spec_seat(Stone::Black) == black,
            r.spec_seat(Stone::White) == white,
    {
        PlayerManager { black, white }
    }

    /// The next move for the seat of `turn`: `None` for a human seat (the
    /// host must supply coordinates), otherwise the computer's choice,
    /// which is a legal move or `None` exactly when `turn` is stuck.
    pub fn decide(&self, board: &Board, turn: Stone) -> (r: Option<Point>)
        requires
            board.wf(),
            self.wf(),
        ensures
            self.spec_seat(turn) is Human ==> r is None,
            self.spec_seat(turn) matches PlayerType::Computer(com) ==> ((r is Some
                <==> has_legal_move(board@, turn)) && (r matches Some(p) ==> is_legal(
                board@,
                turn,
                p.x as int,
                p.y as int,
            ))),
    {
        let seat = match turn {
            Stone::Black => &self.black,
            Stone::White => &self.white,
        };
        match seat {
            PlayerType::Human => None,
            PlayerType::Computer(com) => com.decide(board),
        }
    }
}

} // verus!
