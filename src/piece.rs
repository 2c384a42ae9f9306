//! The value types of the game: sides, piece kinds, pieces and turns.

use vstd::prelude::*;

verus! {

/// Error for a request that has no meaning on the value it was made on.
#[derive(Debug, Clone, Copy, PartialEq, Eq, Structural)]
pub enum ChessError {
    /// The operation needs a side, and `Side::Empty` (an empty square's side) was given.
    NoSide,
}

/// The owner of a square's piece; `Empty` is the side of an empty square.
#[derive(Debug, Clone, Copy, PartialEq, Eq, Structural)]
pub enum Side {
    Empty,
    White,
    Black,
}

/// The side that moves next.
#[derive(Debug, Clone, Copy, PartialEq, Eq, Structural)]
pub enum Turn {
    White,
    Black,
}

/// What stands on a square. A pawn carries whether it advanced two squares
/// on the move just played (it may then be taken en passant).
#[derive(Debug, Clone, Copy, PartialEq, Eq, Structural)]
pub enum Kind {
    Empty,
    Pawn(bool),
    Knight,
    Bishop,
    Rook,
    Queen,
    King,
}

/// A square's content. `selected` only tells a renderer to highlight it.
#[derive(Debug, Clone, Copy, PartialEq, Eq, Structural)]
pub struct Piece {
    pub kind: Kind,
    pub selected: bool,
    pub side: Side,
}

/// The opposing side; `Side::Empty` has none and maps to itself.
pub open spec fn opponent(side: Side) -> Side {
    match side {
        Side::White => Side::Black,
        Side::Black => Side::White,
        Side::Empty => Side::Empty,
    }
}

/// The side whose pieces move on `turn`.
pub open spec fn turn_side(turn: Turn) -> Side {
    match turn {
        Turn::White => Side::White,
        Turn::Black => Side::Black,
    }
}

pub open spec fn next_turn(turn: Turn) -> Turn {
    match turn {
        Turn::White => Turn::Black,
        Turn::Black => Turn::White,
    }
}

/// The texture slot of a piece: one per kind (an empty square shares the
/// pawn's slot), and the black set follows the six white ones.
pub open spec fn tex_index(p: Piece) -> int {
    let base: int = match p.kind {
        Kind::Empty => 0,
        Kind::Pawn(_) => 0,
        Kind::Knight => 1,
        Kind::Bishop => 2,
        Kind::Rook => 3,
        Kind::Queen => 4,
        Kind::King => 5,
    };
    if p.side == Side::Black { base + 6 } else { base }
}

impl Side {
    /// The opposing side, or `NoSide` for an empty square's side.
    pub fn opposite(&self) -> (r: Result<Side, ChessError>)
        ensures
            *self == Side::Empty <==> r is Err,
            r is Ok ==> r->Ok_0 == opponent(*self),
            r is Err ==> r->Err_0 == ChessError::NoSide,
    {
        match *self {
            Side::White => Ok(Side::Black),
            Side::Black => Ok(Side::White),
            Side::Empty => Err(ChessError::NoSide),
        }
    }

    pub fn as_turn_color(turn: Turn) -> (r: Side)
        ensures
            r == turn_side(turn),
    {
        match turn {
            Turn::White => Side::White,
            Turn::Black => Side::Black,
        }
    }
}

impl Turn {
    pub fn opposite(turn: &Turn) -> (r: Turn)
        ensures
            r == next_turn(*turn),
    {
        match *turn {
            Turn::White => Turn::Black,
            Turn::Black => Turn::White,
        }
    }
}

impl Piece {
    /// A piece is well formed when it is empty exactly when it has no side.
    pub open spec fn wf(self) -> bool {
        (self.kind == Kind::Empty) <==> (self.side == Side::Empty)
    }

    pub open spec fn is_empty(self) -> bool {
        self.kind == Kind::Empty
    }

    pub open spec fn empty() -> Piece {
        Piece { kind: Kind::Empty, selected: false, side: Side::Empty }
    }

    pub fn new(kind: Kind, side: Side) -> (r: Piece)
        ensures
            r == (Piece { kind, selected: false, side }),
    {
        Piece { kind, selected: false, side }
    }

    pub fn new_empty() -> (r: Piece)
        ensures
            r == Piece::empty(),
    {
        Piece { kind: Kind::Empty, selected: false, side: Side::Empty }
    }

    pub fn get_tex_index(&self) -> (r: usize)
        ensures
            r == tex_index(*self),
    {
        let side_increment: usize = if self.side == Side::Black { 6 } else { 0 };
        let base: usize = match self.kind {
            Kind::Empty => 0,
            Kind::Pawn(_) => 0,
            Kind::Knight => 1,
            Kind::Bishop => 2,
            Kind::Rook => 3,
            Kind::Queen => 4,
            Kind::King => 5,
        };
        base + side_increment
    }
}

} // verus!
