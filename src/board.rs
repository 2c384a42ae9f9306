//! The 8x8 board, stored row by row: square (row, col) is entry `8 * row + col`,
//! row 0 being the far rank as White sees it.

use vstd::prelude::*;
use crate::piece::{Kind, Piece};

verus! {

pub open spec fn in_bounds(row: int, col: int) -> bool {
    0 <= row < 8 && 0 <= col < 8
}

pub open spec fn square_index(row: int, col: int) -> int {
    8 * row + col
}

/// The piece on (row, col) of a board seen as its 64 squares.
pub open spec fn piece_at(b: Seq<Piece>, row: int, col: int) -> Piece {
    b[square_index(row, col)]
}

/// A board is well formed when it has 64 squares and each holds a well-formed piece.
pub open spec fn board_wf(b: Seq<Piece>) -> bool {
    &&& b.len() == 64
    &&& forall|i: int| 0 <= i < 64 ==> (#[trigger] b[i]).wf()
}

#[derive(Clone, Copy)]
pub struct Board {
    squares: [Piece; 64],
}

impl View for Board {
    type V = Seq<Piece>;

    closed spec fn view(&self) -> Seq<Piece> {
        self.squares@
    }
}

impl Board {
    pub open spec fn wf(&self) -> bool {
        board_wf(self@)
    }

    /// A board with no pieces on it.
    pub fn new_empty() -> (r: Board)
        ensures
            r.wf(),
            forall|i: int| 0 <= i < 64 ==> #[trigger] r@[i] == Piece::empty(),
    {
        let e = Piece::new_empty();
        Board { squares: [e; 64] }
    }

    /// The piece on (row, col).
    pub fn get(&self, row: usize, col: usize) -> (r: Piece)
        requires
            self.wf(),
            row < 8,
            col < 8,
        ensures
            r == piece_at(self@, row as int, col as int),
    {
        self.squares[8 * row + col]
    }

    /// Puts `piece` on (row, col), replacing what stood there.
    pub fn set(&mut self, row: usize, col: usize, piece: Piece)
        requires
            old(self).wf(),
            row < 8,
            col < 8,
            piece.wf(),
        ensures
            final(self).wf(),
            final(self)@ == old(self)@.update(square_index(row as int, col as int), piece),
    {
        self.squares[8 * row + col] = piece;
    }
}

/// The piece with its highlight cleared.
pub open spec fn unselected(p: Piece) -> Piece {
    Piece { kind: p.kind, selected: false, side: p.side }
}

/// The piece, with a pawn's en passant flag cleared.
pub open spec fn without_flag(p: Piece) -> Piece {
    match p.kind {
        Kind::Pawn(_) => Piece { kind: Kind::Pawn(false), selected: p.selected, side: p.side },
        _ => p,
    }
}

pub open spec fn deselected(b: Seq<Piece>) -> Seq<Piece> {
    b.map_values(|p: Piece| unselected(p))
}

pub open spec fn flags_cleared(b: Seq<Piece>) -> Seq<Piece> {
    b.map_values(|p: Piece| without_flag(p))
}

/// Clears the highlight of every square.
pub fn deselect_every_piece(board: &mut Board)
    requires
        old(board).wf(),
    ensures
        final(board).wf(),
        final(board)@ == deselected(old(board)@),
{
    let ghost before = board@;
    let mut i: usize = 0;
    while i < 64
        invariant
            i <= 64,
            board@.len() == 64,
            before.len() == 64,
            forall|k: int| 0 <= k < i ==> board@[k] == unselected(#[trigger] before[k]),
            forall|k: int| i <= k < 64 ==> board@[k] == before[k],
            board_wf(before),
        decreases 64 - i,
    {
        board.squares[i].selected = false;
        i = i + 1;
    }
    assert(board@ =~= deselected(before));
}

/// Clears the en passant flag of every pawn: the window for taking a pawn
/// en passant lasts one move.
pub fn clear_en_passant_flags(board: &mut Board)
    requires
        old(board).wf(),
    ensures
        final(board).wf(),
        final(board)@ == flags_cleared(old(board)@),
{
    let ghost before = board@;
    let mut i: usize = 0;
    while i < 64
        invariant
            i <= 64,
            board@.len() == 64,
            before.len() == 64,
            forall|k: int| 0 <= k < i ==> board@[k] == without_flag(#[trigger] before[k]),
            forall|k: int| i <= k < 64 ==> board@[k] == before[k],
            board_wf(before),
        decreases 64 - i,
    {
        if let Kind::Pawn(true) = board.squares[i].kind {
            board.squares[i].kind = Kind::Pawn(false);
        }
        i = i + 1;
    }
    assert(board@ =~= flags_cleared(before));
}

} // verus!
