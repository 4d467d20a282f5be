//! The two stone colors and their basic operations.
use vstd::prelude::*;

verus! {

/// A stone of one of the two players.
#[derive(Clone, Copy, Debug, PartialEq, Eq, Structural)]
pub enum Stone {
    Black,
    White,
}

/// The color that plays against `c`.
pub open spec fn opposite(c: Stone) -> Stone {
    match c {
        Stone::Black => Stone::White,
        Stone::White => Stone::Black,
    }
}

impl Stone {
    /// The color that plays against `self`.
    pub fn flip(self) -> (r: Stone)
        ensures
            r == opposite(self),
    {
        match self {
            Stone::Black => Stone::White,
            Stone::White => Stone::Black,
        }
    }
}

/// A color never equals its opposite.
pub proof fn lemma_opposite_ne(c: Stone)
    ensures
        opposite(c) != c,
        opposite(opposite(c)) == c,
{
}

} // verus!
