//! Executing a move on a board, with a pawn's side effects: en passant
//! capture, the two-square flag and promotion.

use vstd::prelude::*;
use crate::board::{in_bounds, piece_at, square_index, Board};
use crate::moves::{abs, last_row};
use crate::piece::{Kind, Piece, Side};

verus! {

/// What stands on the destination after the piece `p` moved from row
/// `from_row` to row `to_row`: a pawn on its last row becomes a queen of its
/// side, a pawn that advanced two rows carries the en passant flag, and any
/// other piece arrives unchanged.
pub open spec fn moved_piece(p: Piece, from_row: int, to_row: int) -> Piece {
    if p.kind is Pawn {
        if to_row == last_row(p.side) {
            Piece { kind: Kind::Queen, selected: false, side: p.side }
        } else if abs(to_row - from_row) == 2 {
            Piece { kind: Kind::Pawn(true), selected: p.selected, side: p.side }
        } else {
            p
        }
    } else {
        p
    }
}

/// A pawn moving diagonally onto an empty square takes en passant.
pub open spec fn is_en_passant(b: Seq<Piece>, fr: int, fc: int, tr: int, tc: int) -> bool {
    piece_at(b, fr, fc).kind is Pawn && tc != fc && piece_at(b, tr, tc).is_empty()
}

/// The board after the piece on (fr, fc) moves to (tr, tc): an en passant
/// capture first removes the pawn on (fr, tc); the moved piece then stands
/// on the destination and the source is emptied.
pub open spec fn after_move(b: Seq<Piece>, fr: int, fc: int, tr: int, tc: int) -> Seq<Piece> {
    let p = piece_at(b, fr, fc);
    let captured = if is_en_passant(b, fr, fc, tr, tc) {
        b.update(square_index(fr, tc), Piece::empty())
    } else {
        b
    };
    captured.update(square_index(tr, tc), moved_piece(p, fr, tr)).update(square_index(fr, fc), Piece::empty())
}

/// Moves the piece on `from` to `to` without testing legality.
pub fn make_move(board: &mut Board, from: (usize, usize), to: (usize, usize))
    requires
        old(board).wf(),
        from.0 < 8,
        from.1 < 8,
        to.0 < 8,
        to.1 < 8,
    ensures
        final(board).wf(),
        final(board)@ == after_move(old(board)@, from.0 as int, from.1 as int, to.0 as int, to.1 as int),
{
    let mut orig_piece = board.get(from.0, from.1);
    let ghost b = board@;
    if let Kind::Pawn(_) = orig_piece.kind {
        // a diagonal step onto an empty square takes the pawn beside the mover
        if to.1 != from.1 && board.get(to.0, to.1).kind == Kind::Empty {
            board.set(from.0, to.1, Piece::new_empty());
        }
        // a pawn that advanced two rows may be taken en passant on the next move
        if from.0 + 2 == to.0 || to.0 + 2 == from.0 {
            orig_piece.kind = Kind::Pawn(true);
        }
        // a pawn that reached its last row becomes a queen
        let last: usize = if orig_piece.side == Side::White { 0 } else { 7 };
        if to.0 == last {
            orig_piece = Piece::new(Kind::Queen, orig_piece.side);
        }
    }
    board.set(to.0, to.1, orig_piece);
    board.set(from.0, from.1, Piece::new_empty());
}

/// After a move, the source square is empty and the destination holds the
/// moved piece; every other square is unchanged, except that an en passant
/// capture also empties the square of the pawn taken.
pub proof fn lemma_apply_relocates(b: Seq<Piece>, fr: int, fc: int, tr: int, tc: int)
    requires
        crate::board::board_wf(b),
        in_bounds(fr, fc),
        in_bounds(tr, tc),
        fr != tr || fc != tc,
    ensures
        ({
            let a = after_move(b, fr, fc, tr, tc);
            &&& piece_at(a, fr, fc) == Piece::empty()
            &&& piece_at(a, tr, tc) == moved_piece(piece_at(b, fr, fc), fr, tr)
            &&& forall|r: int, c: int|
                in_bounds(r, c) && (r != fr || c != fc) && (r != tr || c != tc) ==> #[trigger] piece_at(a, r, c) == if is_en_passant(
                    b,
                    fr,
                    fc,
                    tr,
                    tc,
                ) && r == fr && c == tc {
                    Piece::empty()
                } else {
                    piece_at(b, r, c)
                }
        }),
{
}

/// A pawn that reaches the last row of its side is, right after the move, a
/// queen of that side.
pub proof fn lemma_pawn_promotes(b: Seq<Piece>, fr: int, fc: int, tr: int, tc: int)
    requires
        crate::board::board_wf(b),
        in_bounds(fr, fc),
        in_bounds(tr, tc),
        fr != tr || fc != tc,
        piece_at(b, fr, fc).kind is Pawn,
        tr == last_row(piece_at(b, fr, fc).side),
    ensures
        piece_at(after_move(b, fr, fc, tr, tc), tr, tc).kind == Kind::Queen,
        piece_at(after_move(b, fr, fc, tr, tc), tr, tc).side == piece_at(b, fr, fc).side,
{
}

} // verus!
