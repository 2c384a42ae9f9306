//! Pseudo-legal move generation: where each kind of piece may go given the
//! board's occupancy, before any test of the mover's own king.

use vstd::prelude::*;
use crate::board::{in_bounds, piece_at, Board};
use crate::piece::{opponent, Kind, Piece, Side};

verus! {

broadcast use {vstd::seq_lib::lemma_seq_contains_after_push, vstd::seq_lib::lemma_seq_concat_contains_all_elements};

pub open spec fn abs(x: int) -> int {
    if x < 0 { -x } else { x }
}

/// The coordinate `k` steps from `x` in direction `d` (only the sign of `d` counts).
pub open spec fn step(x: int, d: int, k: int) -> int {
    if d > 0 { x + k } else if d < 0 { x - k } else { x }
}

/// How many steps along (dr, dc) lead from (r, c) to the row or column of (tr, tc).
pub open spec fn ray_dist(r: int, c: int, dr: int, tr: int, tc: int) -> int {
    if dr != 0 { abs(tr - r) } else { abs(tc - c) }
}

pub open spec fn unit_dir(dr: int, dc: int) -> bool {
    -1 <= dr <= 1 && -1 <= dc <= 1 && (dr != 0 || dc != 0)
}

/// (tr, tc) is on the board, one step or more from (r, c) along (dr, dc),
/// and every square strictly between the two is empty.
pub open spec fn ray_reaches(b: Seq<Piece>, r: int, c: int, dr: int, dc: int, tr: int, tc: int) -> bool {
    let k = ray_dist(r, c, dr, tr, tc);
    &&& k >= 1
    &&& tr == step(r, dr, k)
    &&& tc == step(c, dc, k)
    &&& in_bounds(tr, tc)
    &&& forall|m: int| 1 <= m < k ==> (#[trigger] piece_at(b, step(r, dr, m), step(c, dc, m))).is_empty()
}

pub open spec fn diagonal_reaches(b: Seq<Piece>, r: int, c: int, tr: int, tc: int) -> bool {
    ||| ray_reaches(b, r, c, 1, 1, tr, tc)
    ||| ray_reaches(b, r, c, -1, 1, tr, tc)
    ||| ray_reaches(b, r, c, 1, -1, tr, tc)
    ||| ray_reaches(b, r, c, -1, -1, tr, tc)
}

pub open spec fn straight_reaches(b: Seq<Piece>, r: int, c: int, tr: int, tc: int) -> bool {
    ||| ray_reaches(b, r, c, 0, 1, tr, tc)
    ||| ray_reaches(b, r, c, 0, -1, tr, tc)
    ||| ray_reaches(b, r, c, -1, 0, tr, tc)
    ||| ray_reaches(b, r, c, 1, 0, tr, tc)
}

pub open spec fn knight_jump(r: int, c: int, tr: int, tc: int) -> bool {
    ||| abs(tr - r) == 1 && abs(tc - c) == 2
    ||| abs(tr - r) == 2 && abs(tc - c) == 1
}

pub open spec fn king_step(r: int, c: int, tr: int, tc: int) -> bool {
    abs(tr - r) <= 1 && abs(tc - c) <= 1 && (tr != r || tc != c)
}

/// The row direction of a pawn: White moves toward row 0, Black toward row 7.
pub open spec fn pawn_dir(side: Side) -> int {
    match side {
        Side::White => -1,
        Side::Black => 1,
        Side::Empty => 0,
    }
}

/// The row from which a pawn may advance two squares.
pub open spec fn pawn_start_row(side: Side) -> int {
    match side {
        Side::White => 6,
        Side::Black => 1,
        Side::Empty => -1,
    }
}

/// The row on which a pawn of `side` becomes a queen.
pub open spec fn last_row(side: Side) -> int {
    match side {
        Side::White => 0,
        Side::Black => 7,
        Side::Empty => -1,
    }
}

/// The pawn on (r, c) steps forward onto an empty square.
pub open spec fn pawn_single_step(b: Seq<Piece>, r: int, c: int, tr: int, tc: int) -> bool {
    let d = pawn_dir(piece_at(b, r, c).side);
    tr == r + d && tc == c && piece_at(b, tr, tc).is_empty()
}

/// The pawn on (r, c), on its starting row, advances two squares over two empty ones.
pub open spec fn pawn_double_step(b: Seq<Piece>, r: int, c: int, tr: int, tc: int) -> bool {
    let side = piece_at(b, r, c).side;
    let d = pawn_dir(side);
    &&& r == pawn_start_row(side)
    &&& tr == r + 2 * d
    &&& tc == c
    &&& piece_at(b, r + d, c).is_empty()
    &&& piece_at(b, tr, tc).is_empty()
}

/// The pawn on (r, c) takes an opposing piece diagonally forward.
pub open spec fn pawn_capture(b: Seq<Piece>, r: int, c: int, tr: int, tc: int) -> bool {
    let side = piece_at(b, r, c).side;
    &&& tr == r + pawn_dir(side)
    &&& (tc == c - 1 || tc == c + 1)
    &&& piece_at(b, tr, tc).side == opponent(side)
}

/// The pawn on (r, c) takes en passant: it moves diagonally forward onto an
/// empty square beside which, on its own row, stands an opposing pawn that
/// has just advanced two squares.
pub open spec fn pawn_en_passant(b: Seq<Piece>, r: int, c: int, tr: int, tc: int) -> bool {
    let side = piece_at(b, r, c).side;
    &&& tr == r + pawn_dir(side)
    &&& (tc == c - 1 || tc == c + 1)
    &&& piece_at(b, tr, tc).is_empty()
    &&& piece_at(b, r, tc).kind == Kind::Pawn(true)
    &&& piece_at(b, r, tc).side == opponent(side)
}

pub open spec fn pawn_reaches(b: Seq<Piece>, r: int, c: int, tr: int, tc: int) -> bool {
    ||| pawn_single_step(b, r, c, tr, tc)
    ||| pawn_double_step(b, r, c, tr, tc)
    ||| pawn_capture(b, r, c, tr, tc)
    ||| pawn_en_passant(b, r, c, tr, tc)
}

/// The movement pattern of the piece on (r, c), with the occupancy that it
/// depends on, reaches (tr, tc).
pub open spec fn reaches(b: Seq<Piece>, r: int, c: int, tr: int, tc: int) -> bool {
    match piece_at(b, r, c).kind {
        Kind::Empty => false,
        Kind::Pawn(_) => pawn_reaches(b, r, c, tr, tc),
        Kind::Knight => knight_jump(r, c, tr, tc),
        Kind::Bishop => diagonal_reaches(b, r, c, tr, tc),
        Kind::Rook => straight_reaches(b, r, c, tr, tc),
        Kind::Queen => diagonal_reaches(b, r, c, tr, tc) || straight_reaches(b, r, c, tr, tc),
        Kind::King => king_step(r, c, tr, tc),
    }
}

/// (tr, tc) is a pseudo-legal destination of the piece on (r, c): on the
/// board, reached by its pattern, and not held by a piece of its own side.
pub open spec fn is_pseudo_move(b: Seq<Piece>, r: int, c: int, tr: int, tc: int) -> bool {
    &&& in_bounds(tr, tc)
    &&& reaches(b, r, c, tr, tc)
    &&& piece_at(b, tr, tc).side != piece_at(b, r, c).side
}

pub open spec fn sq_in_bounds(t: (usize, usize)) -> bool {
    in_bounds(t.0 as int, t.1 as int)
}

/// The squares walked from (row, col) along (dr, dc): each empty square, and
/// the first occupied one unless it holds a piece of the mover's side.
fn ray_moves(board: &Board, row: usize, col: usize, dr: isize, dc: isize) -> (res: Vec<(usize, usize)>)
    requires
        board.wf(),
        row < 8,
        col < 8,
        !piece_at(board@, row as int, col as int).is_empty(),
        unit_dir(dr as int, dc as int),
    ensures
        forall|t: (usize, usize)|
            res@.contains(t) <==> ray_reaches(board@, row as int, col as int, dr as int, dc as int, t.0 as int, t.1 as int)
                && piece_at(board@, t.0 as int, t.1 as int).side != piece_at(board@, row as int, col as int).side,
        res@.no_duplicates(),
{
    let ghost b = board@;
    let ghost (r0, c0, dri, dci) = (row as int, col as int, dr as int, dc as int);
    let side = board.get(row, col).side;
    let mut res: Vec<(usize, usize)> = Vec::new();
    let mut r: isize = row as isize + dr;
    let mut c: isize = col as isize + dc;
    let ghost mut k: int = 1;
    loop
        invariant_except_break
            k >= 1,
            r == step(r0, dri, k),
            c == step(c0, dci, k),
            -1 <= r <= 8,
            -1 <= c <= 8,
            forall|m: int|
                1 <= m < k ==> in_bounds(step(r0, dri, m), step(c0, dci, m))
                    && (#[trigger] piece_at(b, step(r0, dri, m), step(c0, dci, m))).is_empty(),
            forall|t: (usize, usize)|
                res@.contains(t) <==> {
                    let d = ray_dist(r0, c0, dri, t.0 as int, t.1 as int);
                    1 <= d < k && t.0 as int == step(r0, dri, d) && t.1 as int == step(c0, dci, d)
                },
        invariant
            board.wf(),
            b == board@,
            r0 == row && c0 == col && dri == dr && dci == dc,
            row < 8,
            col < 8,
            unit_dir(dri, dci),
            side == piece_at(b, r0, c0).side,
            side != Side::Empty,
            res@.no_duplicates(),
        ensures
            forall|t: (usize, usize)|
                res@.contains(t) <==> ray_reaches(b, r0, c0, dri, dci, t.0 as int, t.1 as int)
                    && piece_at(b, t.0 as int, t.1 as int).side != side,
        decreases (if dr > 0 { 8 - r } else if dr < 0 { r + 1 } else { 0 }) + (if dc > 0 { 8 - c } else if dc < 0 { c + 1 } else { 0 }),
    {
        if !(0 <= r && r < 8 && 0 <= c && c < 8) {
            break;
        }
        let p = board.get(r as usize, c as usize);
        let ghost prev = res@;
        assert(ray_dist(r0, c0, dri, r as int, c as int) == k);
        assert(!prev.contains((r as usize, c as usize)));
        if p.kind == Kind::Empty {
            res.push((r as usize, c as usize));
            assert(res@ == prev.push((r as usize, c as usize)));
        } else {
            if p.side != side {
                res.push((r as usize, c as usize));
                assert(res@ == prev.push((r as usize, c as usize)));
            }
            assert forall|t: (usize, usize)|
                res@.contains(t) <==> ray_reaches(b, r0, c0, dri, dci, t.0 as int, t.1 as int)
                    && piece_at(b, t.0 as int, t.1 as int).side != side by {
                if ray_reaches(b, r0, c0, dri, dci, t.0 as int, t.1 as int) {
                    let d = ray_dist(r0, c0, dri, t.0 as int, t.1 as int);
                    if d > k {
                        assert(!piece_at(b, step(r0, dri, k), step(c0, dci, k)).is_empty());
                    }
                }
            }
            break;
        }
        r = r + dr;
        c = c + dc;
        proof {
            k = k + 1;
        }
    }
    res
}


/// Squares reached along two different directions are different squares.
proof fn lemma_rays_disjoint(
    b: Seq<Piece>,
    r: int,
    c: int,
    d1r: int,
    d1c: int,
    d2r: int,
    d2c: int,
    tr: int,
    tc: int,
)
    requires
        unit_dir(d1r, d1c),
        unit_dir(d2r, d2c),
        d1r != d2r || d1c != d2c,
    ensures
        !(ray_reaches(b, r, c, d1r, d1c, tr, tc) && ray_reaches(b, r, c, d2r, d2c, tr, tc)),
{
}

/// Concatenating two duplicate-free sequences whose elements satisfy
/// exclusive predicates gives a duplicate-free sequence.
proof fn lemma_concat_exclusive(
    a: Seq<(usize, usize)>,
    x: Seq<(usize, usize)>,
    p: spec_fn((usize, usize)) -> bool,
    q: spec_fn((usize, usize)) -> bool,
)
    requires
        a.no_duplicates(),
        x.no_duplicates(),
        forall|t: (usize, usize)| a.contains(t) ==> p(t),
        forall|t: (usize, usize)| x.contains(t) ==> q(t),
        forall|t: (usize, usize)| !(#[trigger] p(t) && q(t)),
    ensures
        (a + x).no_duplicates(),
{
    assert forall|i: int, j: int| 0 <= i < a.len() && 0 <= j < x.len() implies a[i] != x[j] by {
        assert(a.contains(a[i]));
        assert(x.contains(x[j]));
    }
    vstd::seq_lib::lemma_no_dup_in_concat(a, x);
}

fn generate_bishop_moves(board: &Board, row: usize, col: usize) -> (res: Vec<(usize, usize)>)
    requires
        board.wf(),
        row < 8,
        col < 8,
        !piece_at(board@, row as int, col as int).is_empty(),
    ensures
        forall|t: (usize, usize)|
            res@.contains(t) <==> diagonal_reaches(board@, row as int, col as int, t.0 as int, t.1 as int)
                && piece_at(board@, t.0 as int, t.1 as int).side != piece_at(board@, row as int, col as int).side,
        res@.no_duplicates(),
{
    let ghost b = board@;
    let ghost (r, c) = (row as int, col as int);
    let mut all = ray_moves(board, row, col, 1, 1);
    let mut more = ray_moves(board, row, col, -1, 1);
    proof {
        assert forall|tr: int, tc: int| !(ray_reaches(b, r, c, 1, 1, tr, tc) && ray_reaches(b, r, c, -1, 1, tr, tc)) by {
            lemma_rays_disjoint(b, r, c, 1, 1, -1, 1, tr, tc);
        }
        lemma_concat_exclusive(all@, more@,
            |t: (usize, usize)| ray_reaches(b, r, c, 1, 1, t.0 as int, t.1 as int),
            |t: (usize, usize)| ray_reaches(b, r, c, -1, 1, t.0 as int, t.1 as int));
    }
    all.append(&mut more);
    let mut more = ray_moves(board, row, col, 1, -1);
    proof {
        assert forall|tr: int, tc: int|
            !((ray_reaches(b, r, c, 1, 1, tr, tc) || ray_reaches(b, r, c, -1, 1, tr, tc))
                && ray_reaches(b, r, c, 1, -1, tr, tc)) by {
            lemma_rays_disjoint(b, r, c, 1, 1, 1, -1, tr, tc);
            lemma_rays_disjoint(b, r, c, -1, 1, 1, -1, tr, tc);
        }
        lemma_concat_exclusive(all@, more@,
            |t: (usize, usize)| ray_reaches(b, r, c, 1, 1, t.0 as int, t.1 as int)
                || ray_reaches(b, r, c, -1, 1, t.0 as int, t.1 as int),
            |t: (usize, usize)| ray_reaches(b, r, c, 1, -1, t.0 as int, t.1 as int));
    }
    all.append(&mut more);
    let mut more = ray_moves(board, row, col, -1, -1);
    proof {
        assert forall|tr: int, tc: int|
            !((ray_reaches(b, r, c, 1, 1, tr, tc) || ray_reaches(b, r, c, -1, 1, tr, tc)
                || ray_reaches(b, r, c, 1, -1, tr, tc)) && ray_reaches(b, r, c, -1, -1, tr, tc)) by {
            lemma_rays_disjoint(b, r, c, 1, 1, -1, -1, tr, tc);
            lemma_rays_disjoint(b, r, c, -1, 1, -1, -1, tr, tc);
            lemma_rays_disjoint(b, r, c, 1, -1, -1, -1, tr, tc);
        }
        lemma_concat_exclusive(all@, more@,
            |t: (usize, usize)| ray_reaches(b, r, c, 1, 1, t.0 as int, t.1 as int)
                || ray_reaches(b, r, c, -1, 1, t.0 as int, t.1 as int)
                || ray_reaches(b, r, c, 1, -1, t.0 as int, t.1 as int),
            |t: (usize, usize)| ray_reaches(b, r, c, -1, -1, t.0 as int, t.1 as int));
    }
    all.append(&mut more);
    all
}

fn generate_rook_moves(board: &Board, row: usize, col: usize) -> (res: Vec<(usize, usize)>)
    requires
        board.wf(),
        row < 8,
        col < 8,
        !piece_at(board@, row as int, col as int).is_empty(),
    ensures
        forall|t: (usize, usize)|
            res@.contains(t) <==> straight_reaches(board@, row as int, col as int, t.0 as int, t.1 as int)
                && piece_at(board@, t.0 as int, t.1 as int).side != piece_at(board@, row as int, col as int).side,
        res@.no_duplicates(),
{
    let ghost b = board@;
    let ghost (r, c) = (row as int, col as int);
    let mut all = ray_moves(board, row, col, 0, 1);
    let mut more = ray_moves(board, row, col, 0, -1);
    proof {
        assert forall|tr: int, tc: int| !(ray_reaches(b, r, c, 0, 1, tr, tc) && ray_reaches(b, r, c, 0, -1, tr, tc)) by {
            lemma_rays_disjoint(b, r, c, 0, 1, 0, -1, tr, tc);
        }
        lemma_concat_exclusive(all@, more@,
            |t: (usize, usize)| ray_reaches(b, r, c, 0, 1, t.0 as int, t.1 as int),
            |t: (usize, usize)| ray_reaches(b, r, c, 0, -1, t.0 as int, t.1 as int));
    }
    all.append(&mut more);
    let mut more = ray_moves(board, row, col, -1, 0);
    proof {
        assert forall|tr: int, tc: int|
            !((ray_reaches(b, r, c, 0, 1, tr, tc) || ray_reaches(b, r, c, 0, -1, tr, tc))
                && ray_reaches(b, r, c, -1, 0, tr, tc)) by {
            lemma_rays_disjoint(b, r, c, 0, 1, -1, 0, tr, tc);
            lemma_rays_disjoint(b, r, c, 0, -1, -1, 0, tr, tc);
        }
        lemma_concat_exclusive(all@, more@,
            |t: (usize, usize)| ray_reaches(b, r, c, 0, 1, t.0 as int, t.1 as int)
                || ray_reaches(b, r, c, 0, -1, t.0 as int, t.1 as int),
            |t: (usize, usize)| ray_reaches(b, r, c, -1, 0, t.0 as int, t.1 as int));
    }
    all.append(&mut more);
    let mut more = ray_moves(board, row, col, 1, 0);
    proof {
        assert forall|tr: int, tc: int|
            !((ray_reaches(b, r, c, 0, 1, tr, tc) || ray_reaches(b, r, c, 0, -1, tr, tc)
                || ray_reaches(b, r, c, -1, 0, tr, tc)) && ray_reaches(b, r, c, 1, 0, tr, tc)) by {
            lemma_rays_disjoint(b, r, c, 0, 1, 1, 0, tr, tc);
            lemma_rays_disjoint(b, r, c, 0, -1, 1, 0, tr, tc);
            lemma_rays_disjoint(b, r, c, -1, 0, 1, 0, tr, tc);
        }
        lemma_concat_exclusive(all@, more@,
            |t: (usize, usize)| ray_reaches(b, r, c, 0, 1, t.0 as int, t.1 as int)
                || ray_reaches(b, r, c, 0, -1, t.0 as int, t.1 as int)
                || ray_reaches(b, r, c, -1, 0, t.0 as int, t.1 as int),
            |t: (usize, usize)| ray_reaches(b, r, c, 1, 0, t.0 as int, t.1 as int));
    }
    all.append(&mut more);
    all
}

/// Keeps the candidates that lie on the board, as board coordinates.
fn return_safe_moves_vec(candidates: Vec<(isize, isize)>) -> (res: Vec<(usize, usize)>)
    requires
        candidates@.no_duplicates(),
    ensures
        forall|t: (usize, usize)|
            res@.contains(t) <==> sq_in_bounds(t) && candidates@.contains((t.0 as isize, t.1 as isize)),
        res@.no_duplicates(),
{
    let mut res: Vec<(usize, usize)> = Vec::new();
    let mut i: usize = 0;
    while i < candidates.len()
        invariant
            i <= candidates@.len(),
            candidates@.no_duplicates(),
            res@.no_duplicates(),
            forall|t: (usize, usize)|
                #[trigger] res@.contains(t) <==> sq_in_bounds(t) && candidates@.subrange(0, i as int).contains(
                    (t.0 as isize, t.1 as isize),
                ),
        decreases candidates@.len() - i,
    {
        let v = candidates[i];
        let ghost prev = res@;
        proof {
            assert(candidates@.subrange(0, i + 1) == candidates@.subrange(0, i as int).push(v));
        }
        if 0 <= v.0 && v.0 < 8 && 0 <= v.1 && v.1 < 8 {
            proof {
                let u = (v.0 as usize, v.1 as usize);
                assert((u.0 as isize, u.1 as isize) == v);
                if prev.contains(u) {
                    assert(candidates@.subrange(0, i as int).contains(v));
                    let k = choose|k: int| 0 <= k < i && candidates@.subrange(0, i as int)[k] == v;
                    assert(candidates@[k] == v);
                }
            }
            res.push((v.0 as usize, v.1 as usize));
        }
        i = i + 1;
    }
    proof {
        assert(candidates@.subrange(0, candidates@.len() as int) == candidates@);
    }
    res
}

/// An eight-element sequence contains exactly its eight entries.
proof fn lemma_contains_eight<T>(s: Seq<T>)
    requires
        s.len() == 8,
    ensures
        forall|x: T|
            s.contains(x) <==> (x == s[0] || x == s[1] || x == s[2] || x == s[3] || x == s[4] || x == s[5]
                || x == s[6] || x == s[7]),
{
    assert forall|x: T|
        (x == s[0] || x == s[1] || x == s[2] || x == s[3] || x == s[4] || x == s[5] || x == s[6] || x == s[7])
            implies s.contains(x) by {
        if x == s[0] { assert(s[0] == x); }
        else if x == s[1] { assert(s[1] == x); }
        else if x == s[2] { assert(s[2] == x); }
        else if x == s[3] { assert(s[3] == x); }
        else if x == s[4] { assert(s[4] == x); }
        else if x == s[5] { assert(s[5] == x); }
        else if x == s[6] { assert(s[6] == x); }
        else { assert(s[7] == x); }
    }
}

fn generate_knight_moves(row: usize, col: usize) -> (res: Vec<(usize, usize)>)
    requires
        row < 8,
        col < 8,
    ensures
        forall|t: (usize, usize)|
            #[trigger] res@.contains(t) <==> sq_in_bounds(t) && knight_jump(row as int, col as int, t.0 as int, t.1 as int),
        res@.no_duplicates(),
{
    let j = row as isize;
    let i = col as isize;
    let candidates = vec![
        (j - 2, i + 1),
        (j - 2, i - 1),
        (j + 2, i + 1),
        (j + 2, i - 1),
        (j - 1, i - 2),
        (j - 1, i + 2),
        (j + 1, i - 2),
        (j + 1, i + 2),
    ];
    proof {
        lemma_contains_eight(candidates@);
    }
    let res = return_safe_moves_vec(candidates);
    assert forall|t: (usize, usize)|
        #[trigger] res@.contains(t) <==> sq_in_bounds(t) && knight_jump(row as int, col as int, t.0 as int, t.1 as int) by {
        if sq_in_bounds(t) {
            assert((t.0 as isize) as int == t.0 as int);
            assert((t.1 as isize) as int == t.1 as int);
        }
    }
    res
}

fn generate_king_moves(row: usize, col: usize) -> (res: Vec<(usize, usize)>)
    requires
        row < 8,
        col < 8,
    ensures
        forall|t: (usize, usize)|
            #[trigger] res@.contains(t) <==> sq_in_bounds(t) && king_step(row as int, col as int, t.0 as int, t.1 as int),
        res@.no_duplicates(),
{
    let j = row as isize;
    let i = col as isize;
    let candidates = vec![
        (j, i + 1),
        (j, i - 1),
        (j + 1, i),
        (j - 1, i),
        (j + 1, i + 1),
        (j + 1, i - 1),
        (j - 1, i + 1),
        (j - 1, i - 1),
    ];
    proof {
        lemma_contains_eight(candidates@);
    }
    let res = return_safe_moves_vec(candidates);
    assert forall|t: (usize, usize)|
        #[trigger] res@.contains(t) <==> sq_in_bounds(t) && king_step(row as int, col as int, t.0 as int, t.1 as int) by {
        if sq_in_bounds(t) {
            assert((t.0 as isize) as int == t.0 as int);
            assert((t.1 as isize) as int == t.1 as int);
        }
    }
    res
}

/// Whether the pawn of side `side`, moving to (row, to_col), may land there:
/// by taking an opposing piece, or by taking en passant the opposing pawn
/// on (from_row, to_col) that has just advanced two squares.
fn pawn_diagonal_allowed(board: &Board, side: Side, from_row: usize, row: usize, to_col: usize) -> (r: bool)
    requires
        board.wf(),
        from_row < 8,
        row < 8,
        to_col < 8,
        side != Side::Empty,
    ensures
        r == (piece_at(board@, row as int, to_col as int).side == opponent(side) || (piece_at(
            board@,
            row as int,
            to_col as int,
        ).is_empty() && piece_at(board@, from_row as int, to_col as int).kind == Kind::Pawn(true)
            && piece_at(board@, from_row as int, to_col as int).side == opponent(side))),
{
    let opp = match side {
        Side::White => Side::Black,
        _ => Side::White,
    };
    let target = board.get(row, to_col);
    let beside = board.get(from_row, to_col);
    target.side == opp || (target.kind == Kind::Empty && beside.kind == Kind::Pawn(true) && beside.side == opp)
}

fn generate_pawn_moves(board: &Board, row: usize, col: usize) -> (res: Vec<(usize, usize)>)
    requires
        board.wf(),
        row < 8,
        col < 8,
        piece_at(board@, row as int, col as int).kind is Pawn,
    ensures
        forall|t: (usize, usize)|
            #[trigger] res@.contains(t) <==> sq_in_bounds(t) && pawn_reaches(board@, row as int, col as int, t.0 as int, t.1 as int),
        res@.no_duplicates(),
{
    let ghost b = board@;
    let side = board.get(row, col).side;
    assert(side != Side::Empty);
    let white = side == Side::White;
    let mut moves: Vec<(usize, usize)> = Vec::new();
    let ahead: isize = if white { row as isize - 1 } else { row as isize + 1 };
    if 0 <= ahead && ahead < 8 {
        let ahead = ahead as usize;
        if col >= 1 && pawn_diagonal_allowed(board, side, row, ahead, col - 1) {
            moves.push((ahead, col - 1));
        }
        if col + 1 < 8 && pawn_diagonal_allowed(board, side, row, ahead, col + 1) {
            moves.push((ahead, col + 1));
        }
        if board.get(ahead, col).kind == Kind::Empty {
            moves.push((ahead, col));
            let start: usize = if white { 6 } else { 1 };
            if row == start {
                let two_ahead: usize = if white { row - 2 } else { row + 2 };
                if board.get(two_ahead, col).kind == Kind::Empty {
                    moves.push((two_ahead, col));
                }
            }
        }
    }
    moves
}

/// No square is reached both along a diagonal and along a row or column.
proof fn lemma_diagonal_straight_disjoint(b: Seq<Piece>, r: int, c: int, tr: int, tc: int)
    ensures
        !(diagonal_reaches(b, r, c, tr, tc) && straight_reaches(b, r, c, tr, tc)),
{
}

/// Keeps the moves whose destination does not hold a piece of `piece_side`.
fn return_moves_not_on_same_side(board: &Board, moves: Vec<(usize, usize)>, piece_side: Side) -> (res: Vec<(usize, usize)>)
    requires
        board.wf(),
        forall|i: int| 0 <= i < moves@.len() ==> sq_in_bounds(#[trigger] moves@[i]),
        moves@.no_duplicates(),
    ensures
        forall|t: (usize, usize)|
            res@.contains(t) <==> moves@.contains(t) && piece_at(board@, t.0 as int, t.1 as int).side != piece_side,
        res@.no_duplicates(),
{
    let mut vec_safe: Vec<(usize, usize)> = Vec::new();
    let mut i: usize = 0;
    while i < moves.len()
        invariant
            board.wf(),
            i <= moves@.len(),
            forall|i: int| 0 <= i < moves@.len() ==> sq_in_bounds(#[trigger] moves@[i]),
            moves@.no_duplicates(),
            vec_safe@.no_duplicates(),
            forall|t: (usize, usize)|
                #[trigger] vec_safe@.contains(t) <==> moves@.subrange(0, i as int).contains(t) && piece_at(
                    board@,
                    t.0 as int,
                    t.1 as int,
                ).side != piece_side,
        decreases moves@.len() - i,
    {
        let m = moves[i];
        proof {
            assert(moves@.subrange(0, i + 1) == moves@.subrange(0, i as int).push(m));
            if vec_safe@.contains(m) {
                assert(moves@.subrange(0, i as int).contains(m));
                let k = choose|k: int| 0 <= k < i && moves@.subrange(0, i as int)[k] == m;
                assert(moves@[k] == m);
            }
        }
        if board.get(m.0, m.1).side != piece_side {
            vec_safe.push(m);
        }
        i = i + 1;
    }
    proof {
        assert(moves@.subrange(0, moves@.len() as int) == moves@);
    }
    vec_safe
}

/// The destinations that the movement pattern of the piece on (row, col)
/// reaches: all of them that do not hold a piece of its own side, and no
/// square that the pattern does not reach.
fn pattern_moves(board: &Board, row: usize, col: usize) -> (res: Vec<(usize, usize)>)
    requires
        board.wf(),
        row < 8,
        col < 8,
    ensures
        forall|t: (usize, usize)|
            res@.contains(t) ==> sq_in_bounds(t) && reaches(board@, row as int, col as int, t.0 as int, t.1 as int),
        forall|t: (usize, usize)|
            is_pseudo_move(board@, row as int, col as int, t.0 as int, t.1 as int) ==> res@.contains(t),
        res@.no_duplicates(),
{
    let ghost b = board@;
    let ghost (r, c) = (row as int, col as int);
    let piece = board.get(row, col);
    let moves = match piece.kind {
        Kind::Pawn(_just_moved) => generate_pawn_moves(board, row, col),
        Kind::Knight => generate_knight_moves(row, col),
        Kind::Bishop => generate_bishop_moves(board, row, col),
        Kind::Rook => generate_rook_moves(board, row, col),
        Kind::Queen => {
            let mut bishop_moves = generate_bishop_moves(board, row, col);
            let mut rook_moves = generate_rook_moves(board, row, col);
            proof {
                assert forall|t: (usize, usize)|
                    !(diagonal_reaches(b, r, c, t.0 as int, t.1 as int) && straight_reaches(b, r, c, t.0 as int, t.1 as int)) by {
                    lemma_diagonal_straight_disjoint(b, r, c, t.0 as int, t.1 as int);
                }
                lemma_concat_exclusive(bishop_moves@, rook_moves@,
                    |t: (usize, usize)| diagonal_reaches(b, r, c, t.0 as int, t.1 as int),
                    |t: (usize, usize)| straight_reaches(b, r, c, t.0 as int, t.1 as int));
            }
            bishop_moves.append(&mut rook_moves);
            bishop_moves
        },
        Kind::King => generate_king_moves(row, col),
        Kind::Empty => Vec::new(),
    };
    assert forall|t: (usize, usize)| is_pseudo_move(b, r, c, t.0 as int, t.1 as int) implies moves@.contains(t) by {
        let (tr, tc) = (t.0 as int, t.1 as int);
        match piece.kind {
            Kind::Pawn(_) => assert(pawn_reaches(b, r, c, tr, tc)),
            Kind::Knight => assert(sq_in_bounds(t) && knight_jump(row as int, col as int, tr, tc)),
            Kind::Bishop => assert(diagonal_reaches(b, r, c, tr, tc)),
            Kind::Rook => assert(straight_reaches(b, r, c, tr, tc)),
            Kind::Queen => assert(diagonal_reaches(b, r, c, tr, tc) || straight_reaches(b, r, c, tr, tc)),
            Kind::King => assert(sq_in_bounds(t) && king_step(row as int, col as int, tr, tc)),
            Kind::Empty => {},
        }
    }
    moves
}

/// The pseudo-legal destinations of the piece on (row, col); none for an empty square.
pub fn calculate_moves(board: &Board, row: usize, col: usize) -> (res: Vec<(usize, usize)>)
    requires
        board.wf(),
        row < 8,
        col < 8,
    ensures
        forall|t: (usize, usize)| res@.contains(t) <==> is_pseudo_move(board@, row as int, col as int, t.0 as int, t.1 as int),
        forall|i: int|
            0 <= i < res@.len() ==> sq_in_bounds(#[trigger] res@[i]) && piece_at(board@, res@[i].0 as int, res@[i].1 as int).side
                != piece_at(board@, row as int, col as int).side,
        res@.no_duplicates(),
{
    let ghost b = board@;
    let ghost (r, c) = (row as int, col as int);
    let piece = board.get(row, col);
    let moves = pattern_moves(board, row, col);
    proof {
        assert forall|i: int| 0 <= i < moves@.len() implies sq_in_bounds(#[trigger] moves@[i]) by {
            assert(moves@.contains(moves@[i]));
        }
    }
    let res = return_moves_not_on_same_side(board, moves, piece.side);
    proof {
        assert forall|i: int|
            0 <= i < res@.len() implies sq_in_bounds(#[trigger] res@[i]) && piece_at(b, res@[i].0 as int, res@[i].1 as int).side
                != piece_at(b, r, c).side by {
            assert(res@.contains(res@[i]));
        }
    }
    res
}

/// The directions along which a piece of kind `kind` slides.
pub open spec fn slides_along(kind: Kind, dr: int, dc: int) -> bool {
    &&& unit_dir(dr, dc)
    &&& match kind {
        Kind::Bishop => dr != 0 && dc != 0,
        Kind::Rook => dr == 0 || dc == 0,
        Kind::Queen => true,
        _ => false,
    }
}

/// The set of pseudo-legal destinations of the piece on (r, c).
pub open spec fn destinations(b: Seq<Piece>, r: int, c: int) -> Set<(int, int)> {
    Set::new(|t: (int, int)| is_pseudo_move(b, r, c, t.0, t.1))
}

/// Every pseudo-legal destination lies on the board and does not hold a
/// piece of the mover's side.
pub proof fn lemma_destinations_on_board_not_own_side(b: Seq<Piece>, r: int, c: int, tr: int, tc: int)
    requires
        crate::board::board_wf(b),
        in_bounds(r, c),
        is_pseudo_move(b, r, c, tr, tc),
    ensures
        0 <= tr < 8 && 0 <= tc < 8,
        piece_at(b, tr, tc).side != piece_at(b, r, c).side,
{
}

/// Two steps along unit directions from one square meet only when they are
/// the same step.
proof fn lemma_ray_unique(r: int, c: int, dr: int, dc: int, j: int, d2r: int, d2c: int, k2: int)
    requires
        unit_dir(dr, dc),
        unit_dir(d2r, d2c),
        j >= 1,
        k2 >= 1,
        step(r, dr, j) == step(r, d2r, k2),
        step(c, dc, j) == step(c, d2c, k2),
    ensures
        dr == d2r,
        dc == d2c,
        j == k2,
{
}

/// Along each of its directions, a sliding piece reaches no square beyond
/// the first occupied one, and reaches that one exactly when it holds an
/// opposing piece.
pub proof fn lemma_ray_stops_at_first_occupied(b: Seq<Piece>, r: int, c: int, dr: int, dc: int, k: int)
    requires
        crate::board::board_wf(b),
        in_bounds(r, c),
        slides_along(piece_at(b, r, c).kind, dr, dc),
        k >= 1,
        in_bounds(step(r, dr, k), step(c, dc, k)),
        !piece_at(b, step(r, dr, k), step(c, dc, k)).is_empty(),
        forall|m: int| 1 <= m < k ==> (#[trigger] piece_at(b, step(r, dr, m), step(c, dc, m))).is_empty(),
    ensures
        is_pseudo_move(b, r, c, step(r, dr, k), step(c, dc, k)) <==> piece_at(b, step(r, dr, k), step(c, dc, k)).side
            == opponent(piece_at(b, r, c).side),
        forall|j: int| j > k ==> !#[trigger] is_pseudo_move(b, r, c, step(r, dr, j), step(c, dc, j)),
{
    let (tr, tc) = (step(r, dr, k), step(c, dc, k));
    assert(ray_reaches(b, r, c, dr, dc, tr, tc));
    assert forall|j: int| j > k implies !#[trigger] is_pseudo_move(b, r, c, step(r, dr, j), step(c, dc, j)) by {
        let (xr, xc) = (step(r, dr, j), step(c, dc, j));
        assert forall|d2r: int, d2c: int| unit_dir(d2r, d2c) implies !ray_reaches(b, r, c, d2r, d2c, xr, xc) by {
            if ray_reaches(b, r, c, d2r, d2c, xr, xc) {
                let k2 = ray_dist(r, c, d2r, xr, xc);
                lemma_ray_unique(r, c, dr, dc, j, d2r, d2c, k2);
                assert(piece_at(b, step(r, dr, k), step(c, dc, k)).is_empty());
            }
        }
        assert(!ray_reaches(b, r, c, 1, 1, xr, xc));
        assert(!ray_reaches(b, r, c, -1, 1, xr, xc));
        assert(!ray_reaches(b, r, c, 1, -1, xr, xc));
        assert(!ray_reaches(b, r, c, -1, -1, xr, xc));
        assert(!ray_reaches(b, r, c, 0, 1, xr, xc));
        assert(!ray_reaches(b, r, c, 0, -1, xr, xc));
        assert(!ray_reaches(b, r, c, 1, 0, xr, xc));
        assert(!ray_reaches(b, r, c, -1, 0, xr, xc));
    }
}

/// A pawn on its starting row whose square ahead is free has exactly one or
/// two forward destinations (two when the square beyond is free as well);
/// all its destinations are among the three squares ahead and the one two
/// rows ahead, so it never has more than four.
pub proof fn lemma_pawn_start_destinations(b: Seq<Piece>, r: int, c: int)
    requires
        crate::board::board_wf(b),
        in_bounds(r, c),
        piece_at(b, r, c).kind is Pawn,
        r == pawn_start_row(piece_at(b, r, c).side),
        piece_at(b, r + pawn_dir(piece_at(b, r, c).side), c).is_empty(),
    ensures
        ({
            let d = pawn_dir(piece_at(b, r, c).side);
            &&& is_pseudo_move(b, r, c, r + d, c)
            &&& is_pseudo_move(b, r, c, r + 2 * d, c) <==> piece_at(b, r + 2 * d, c).is_empty()
            &&& forall|tr: int| tr != r + d && tr != r + 2 * d ==> !#[trigger] is_pseudo_move(b, r, c, tr, c)
            &&& forall|tr: int, tc: int|
                #[trigger] is_pseudo_move(b, r, c, tr, tc) ==> (tr == r + d && c - 1 <= tc <= c + 1) || (tr == r + 2 * d
                    && tc == c)
        }),
        destinations(b, r, c).len() <= 4,
{
    let d = pawn_dir(piece_at(b, r, c).side);
    let four = set![(r + d, c - 1), (r + d, c), (r + d, c + 1), (r + 2 * d, c)];
    assert(destinations(b, r, c).subset_of(four));
    assert(four.len() <= 4) by {
        let s0 = Set::<(int, int)>::empty();
        assert(s0.insert((r + d, c - 1)).len() <= 1);
        assert(s0.insert((r + d, c - 1)).insert((r + d, c)).len() <= 2);
        assert(s0.insert((r + d, c - 1)).insert((r + d, c)).insert((r + d, c + 1)).len() <= 3);
    }
    vstd::set_lib::lemma_len_subset(destinations(b, r, c), four);
}

} // verus!
