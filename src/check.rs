//! Check detection and legal-move filtering: a move is legal when, played
//! on a copy of the board, it leaves no opposing piece able to take the
//! mover's king.

use vstd::prelude::*;
use crate::board::{in_bounds, piece_at, Board};
use crate::execute::{after_move, make_move};
use crate::moves::{
    calculate_moves, diagonal_reaches, is_pseudo_move, pawn_dir, pawn_start_row, ray_reaches, reaches, sq_in_bounds, step,
    straight_reaches, unit_dir,
};
use crate::piece::{opponent, ChessError, Kind, Piece, Side};

verus! {

broadcast use vstd::seq_lib::lemma_seq_contains_after_push;

/// The piece on (r, c) has a pseudo-legal move onto the king of `side`.
pub open spec fn attacks_king(b: Seq<crate::piece::Piece>, r: int, c: int, side: Side) -> bool {
    exists|tr: int, tc: int|
        #![trigger is_pseudo_move(b, r, c, tr, tc)]
        is_pseudo_move(b, r, c, tr, tc) && piece_at(b, tr, tc).kind == Kind::King && piece_at(b, tr, tc).side == side
}

/// Some piece of the side opposing `side` could take the king of `side`.
pub open spec fn king_attacked(b: Seq<crate::piece::Piece>, side: Side) -> bool {
    exists|r: int, c: int|
        #![trigger attacks_king(b, r, c, side)]
        in_bounds(r, c) && piece_at(b, r, c).side == opponent(side) && attacks_king(b, r, c, side)
}

/// Whether the king of `side` is in check; `NoSide` for `Side::Empty`.
pub fn king_in_check(board: &Board, side: Side) -> (r: Result<bool, ChessError>)
    requires
        board.wf(),
    ensures
        side == Side::Empty <==> r is Err,
        r is Err ==> r->Err_0 == ChessError::NoSide,
        r is Ok ==> r->Ok_0 == king_attacked(board@, side),
{
    let opp = match side.opposite() {
        Ok(s) => s,
        Err(e) => return Err(e),
    };
    let ghost b = board@;
    let mut j: usize = 0;
    while j < 8
        invariant
            j <= 8,
            board.wf(),
            b == board@,
            side != Side::Empty,
            opp == opponent(side),
            forall|r: int, c: int|
                0 <= r < j && 0 <= c < 8 && piece_at(b, r, c).side == opp ==> !#[trigger] attacks_king(b, r, c, side),
        decreases 8 - j,
    {
        let mut i: usize = 0;
        while i < 8
            invariant
                j < 8,
                i <= 8,
                board.wf(),
                b == board@,
                side != Side::Empty,
                opp == opponent(side),
                forall|r: int, c: int|
                    (0 <= r < j && 0 <= c < 8 || r == j && 0 <= c < i) && piece_at(b, r, c).side == opp
                        ==> !#[trigger] attacks_king(b, r, c, side),
            decreases 8 - i,
        {
            if board.get(j, i).side == opp {
                let moves = calculate_moves(board, j, i);
                let mut k: usize = 0;
                while k < moves.len()
                    invariant
                        j < 8,
                        i < 8,
                        k <= moves@.len(),
                        board.wf(),
                        b == board@,
                        side != Side::Empty,
                        opp == opponent(side),
                        piece_at(b, j as int, i as int).side == opp,
                        forall|t: (usize, usize)|
                            moves@.contains(t) <==> is_pseudo_move(b, j as int, i as int, t.0 as int, t.1 as int),
                        forall|x: int| 0 <= x < moves@.len() ==> sq_in_bounds(#[trigger] moves@[x]),
                        forall|x: int|
                            0 <= x < k ==> piece_at(b, (#[trigger] moves@[x]).0 as int, moves@[x].1 as int).kind != Kind::King,
                    decreases moves@.len() - k,
                {
                    let m = moves[k];
                    if board.get(m.0, m.1).kind == Kind::King {
                        proof {
                            assert(moves@.contains(m));
                            assert(piece_at(b, m.0 as int, m.1 as int).side != opp);
                            assert(attacks_king(b, j as int, i as int, side));
                        }
                        return Ok(true);
                    }
                    k = k + 1;
                }
                proof {
                    assert forall|tr: int, tc: int|
                        is_pseudo_move(b, j as int, i as int, tr, tc) implies !(piece_at(b, tr, tc).kind == Kind::King
                            && piece_at(b, tr, tc).side == side) by {
                        let t = (tr as usize, tc as usize);
                        assert(moves@.contains(t));
                        let x = choose|x: int| 0 <= x < moves@.len() && moves@[x] == t;
                        assert(piece_at(b, moves@[x].0 as int, moves@[x].1 as int).kind != Kind::King);
                    }
                }
            }
            i = i + 1;
        }
        j = j + 1;
    }
    Ok(false)
}

/// (tr, tc) is a legal destination of the piece on (r, c): a pseudo-legal
/// one after which the mover's king is not attacked.
pub open spec fn is_legal_move(b: Seq<crate::piece::Piece>, r: int, c: int, tr: int, tc: int) -> bool {
    &&& is_pseudo_move(b, r, c, tr, tc)
    &&& !king_attacked(after_move(b, r, c, tr, tc), piece_at(b, r, c).side)
}

/// The legal destinations of the piece on (row, col): each pseudo-legal move
/// is played on a copy of the board and kept when the mover's king is then
/// not in check.
pub fn legal_moves(board: &Board, row: usize, col: usize) -> (res: Vec<(usize, usize)>)
    requires
        board.wf(),
        row < 8,
        col < 8,
    ensures
        forall|t: (usize, usize)| res@.contains(t) <==> is_legal_move(board@, row as int, col as int, t.0 as int, t.1 as int),
        forall|i: int|
            0 <= i < res@.len() ==> !king_attacked(
                after_move(board@, row as int, col as int, (#[trigger] res@[i]).0 as int, res@[i].1 as int),
                piece_at(board@, row as int, col as int).side,
            ),
        res@.no_duplicates(),
{
    let ghost b = board@;
    let side = board.get(row, col).side;
    let pseudo_legal_moves = calculate_moves(board, row, col);
    let mut legal: Vec<(usize, usize)> = Vec::new();
    let mut k: usize = 0;
    while k < pseudo_legal_moves.len()
        invariant
            k <= pseudo_legal_moves@.len(),
            board.wf(),
            b == board@,
            row < 8,
            col < 8,
            side == piece_at(b, row as int, col as int).side,
            forall|t: (usize, usize)|
                pseudo_legal_moves@.contains(t) <==> is_pseudo_move(b, row as int, col as int, t.0 as int, t.1 as int),
            forall|x: int| 0 <= x < pseudo_legal_moves@.len() ==> sq_in_bounds(#[trigger] pseudo_legal_moves@[x]),
            pseudo_legal_moves@.no_duplicates(),
            legal@.no_duplicates(),
            forall|t: (usize, usize)|
                #[trigger] legal@.contains(t) <==> pseudo_legal_moves@.subrange(0, k as int).contains(t)
                    && is_legal_move(b, row as int, col as int, t.0 as int, t.1 as int),
        decreases pseudo_legal_moves@.len() - k,
    {
        let m = pseudo_legal_moves[k];
        proof {
            assert(pseudo_legal_moves@.subrange(0, k + 1) == pseudo_legal_moves@.subrange(0, k as int).push(m));
            assert(pseudo_legal_moves@.contains(m));
            if legal@.contains(m) {
                assert(pseudo_legal_moves@.subrange(0, k as int).contains(m));
                let x = choose|x: int| 0 <= x < k && pseudo_legal_moves@.subrange(0, k as int)[x] == m;
                assert(pseudo_legal_moves@[x] == m);
            }
        }
        let mut board_clone = *board;
        make_move(&mut board_clone, (row, col), m);
        if let Ok(false) = king_in_check(&board_clone, side) {
            legal.push(m);
        }
        k = k + 1;
    }
    proof {
        assert(pseudo_legal_moves@.subrange(0, pseudo_legal_moves@.len() as int) == pseudo_legal_moves@);
        assert forall|i: int|
            0 <= i < legal@.len() implies !king_attacked(
                after_move(b, row as int, col as int, (#[trigger] legal@[i]).0 as int, legal@[i].1 as int),
                side,
            ) by {
            assert(legal@.contains(legal@[i]));
        }
    }
    legal
}

/// The piece with its side swapped.
pub open spec fn swap_side(p: Piece) -> Piece {
    Piece { kind: p.kind, selected: p.selected, side: opponent(p.side) }
}

/// The board seen by the other player: rows mirrored (row r becomes row
/// 7 - r) and every piece's side swapped.
pub open spec fn color_inverted(b: Seq<Piece>) -> Seq<Piece> {
    Seq::new(64, |i: int| swap_side(b[crate::board::square_index(7 - i / 8, i % 8)]))
}

proof fn lemma_inverted_at(b: Seq<Piece>, r: int, c: int)
    requires
        b.len() == 64,
        in_bounds(r, c),
    ensures
        piece_at(color_inverted(b), 7 - r, c) == swap_side(piece_at(b, r, c)),
{
    let i = 8 * (7 - r) + c;
    assert(i / 8 == 7 - r && i % 8 == c);
}

proof fn lemma_ray_mirror(b: Seq<Piece>, r: int, c: int, dr: int, dc: int, tr: int, tc: int)
    requires
        b.len() == 64,
        in_bounds(r, c),
        unit_dir(dr, dc),
    ensures
        ray_reaches(b, r, c, dr, dc, tr, tc) <==> ray_reaches(color_inverted(b), 7 - r, c, -dr, dc, 7 - tr, tc),
{
    let inv = color_inverted(b);
    let k = crate::moves::ray_dist(r, c, dr, tr, tc);
    assert(crate::moves::ray_dist(7 - r, c, -dr, 7 - tr, tc) == k);
    if ray_reaches(b, r, c, dr, dc, tr, tc) {
        assert forall|m: int| 1 <= m < k implies (#[trigger] piece_at(inv, step(7 - r, -dr, m), step(c, dc, m))).is_empty() by {
            assert(step(7 - r, -dr, m) == 7 - step(r, dr, m));
            lemma_inverted_at(b, step(r, dr, m), step(c, dc, m));
            assert(piece_at(b, step(r, dr, m), step(c, dc, m)).is_empty());
        }
    }
    if ray_reaches(inv, 7 - r, c, -dr, dc, 7 - tr, tc) {
        assert forall|m: int| 1 <= m < k implies (#[trigger] piece_at(b, step(r, dr, m), step(c, dc, m))).is_empty() by {
            assert(step(7 - r, -dr, m) == 7 - step(r, dr, m));
            lemma_inverted_at(b, step(r, dr, m), step(c, dc, m));
            assert(piece_at(inv, step(7 - r, -dr, m), step(c, dc, m)).is_empty());
        }
    }
}

/// A move is pseudo-legal on a board exactly when its mirror image is
/// pseudo-legal on the color-inverted board.
proof fn lemma_pseudo_move_mirror(b: Seq<Piece>, r: int, c: int, tr: int, tc: int)
    requires
        crate::board::board_wf(b),
        in_bounds(r, c),
    ensures
        is_pseudo_move(b, r, c, tr, tc) <==> is_pseudo_move(color_inverted(b), 7 - r, c, 7 - tr, tc),
{
    let inv = color_inverted(b);
    if in_bounds(tr, tc) {
        lemma_inverted_at(b, r, c);
        lemma_inverted_at(b, tr, tc);
        lemma_inverted_at(b, r, tc);
        let p = piece_at(b, r, c);
        match p.kind {
            Kind::Pawn(_) => {
                let d = pawn_dir(p.side);
                if r == pawn_start_row(p.side) {
                    lemma_inverted_at(b, r + d, c);
                }
                assert(reaches(b, r, c, tr, tc) == reaches(inv, 7 - r, c, 7 - tr, tc));
            },
            Kind::Bishop | Kind::Rook | Kind::Queen => {
                lemma_ray_mirror(b, r, c, 1, 1, tr, tc);
                lemma_ray_mirror(b, r, c, -1, 1, tr, tc);
                lemma_ray_mirror(b, r, c, 1, -1, tr, tc);
                lemma_ray_mirror(b, r, c, -1, -1, tr, tc);
                lemma_ray_mirror(b, r, c, 0, 1, tr, tc);
                lemma_ray_mirror(b, r, c, 0, -1, tr, tc);
                lemma_ray_mirror(b, r, c, 1, 0, tr, tc);
                lemma_ray_mirror(b, r, c, -1, 0, tr, tc);
                assert(diagonal_reaches(b, r, c, tr, tc) == diagonal_reaches(inv, 7 - r, c, 7 - tr, tc));
                assert(straight_reaches(b, r, c, tr, tc) == straight_reaches(inv, 7 - r, c, 7 - tr, tc));
            },
            _ => {},
        }
    }
}

/// Check is symmetric under swapping colors: the king of `side` is attacked
/// on a board exactly when the king of the opposing side is attacked on the
/// color-inverted board.
pub proof fn lemma_king_in_check_color_symmetric(b: Seq<Piece>, side: Side)
    requires
        crate::board::board_wf(b),
        side != Side::Empty,
    ensures
        king_attacked(b, side) == king_attacked(color_inverted(b), opponent(side)),
{
    let inv = color_inverted(b);
    if king_attacked(b, side) {
        let (r, c) = choose|r: int, c: int|
            #![trigger attacks_king(b, r, c, side)]
            in_bounds(r, c) && piece_at(b, r, c).side == opponent(side) && attacks_king(b, r, c, side);
        let (tr, tc) = choose|tr: int, tc: int|
            #![trigger is_pseudo_move(b, r, c, tr, tc)]
            is_pseudo_move(b, r, c, tr, tc) && piece_at(b, tr, tc).kind == Kind::King && piece_at(b, tr, tc).side == side;
        lemma_pseudo_move_mirror(b, r, c, tr, tc);
        lemma_inverted_at(b, r, c);
        lemma_inverted_at(b, tr, tc);
        assert(attacks_king(inv, 7 - r, c, opponent(side)));
    }
    if king_attacked(inv, opponent(side)) {
        let (r, c) = choose|r: int, c: int|
            #![trigger attacks_king(inv, r, c, opponent(side))]
            in_bounds(r, c) && piece_at(inv, r, c).side == opponent(opponent(side)) && attacks_king(inv, r, c, opponent(side));
        let (tr, tc) = choose|tr: int, tc: int|
            #![trigger is_pseudo_move(inv, r, c, tr, tc)]
            is_pseudo_move(inv, r, c, tr, tc) && piece_at(inv, tr, tc).kind == Kind::King && piece_at(inv, tr, tc).side
                == opponent(side);
        lemma_pseudo_move_mirror(b, 7 - r, c, 7 - tr, tc);
        lemma_inverted_at(b, 7 - r, c);
        lemma_inverted_at(b, 7 - tr, tc);
        assert(attacks_king(b, 7 - r, c, side));
    }
}

} // verus!
