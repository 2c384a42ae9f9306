use goodman_chess::board::Board;
use goodman_chess::check::{king_in_check, legal_moves};
use goodman_chess::execute::make_move;
use goodman_chess::moves::calculate_moves;
use goodman_chess::piece::{ChessError, Kind, Piece, Side, Turn};
use goodman_chess::state::State;

fn board_with(pieces: &[(usize, usize, Kind, Side)]) -> Board {
    let mut b = Board::new_empty();
    for &(r, c, k, s) in pieces {
        b.set(r, c, Piece::new(k, s));
    }
    b
}

fn sorted(mut v: Vec<(usize, usize)>) -> Vec<(usize, usize)> {
    v.sort();
    v
}

#[test]
fn knight_in_corner_has_two_moves() {
    let b = board_with(&[(0, 0, Kind::Knight, Side::White)]);
    assert_eq!(sorted(calculate_moves(&b, 0, 0)), vec![(1, 2), (2, 1)]);
}

#[test]
fn knight_skips_own_pieces_and_takes_enemies() {
    let b = board_with(&[
        (4, 4, Kind::Knight, Side::White),
        (2, 3, Kind::Pawn(false), Side::White),
        (2, 5, Kind::Pawn(false), Side::Black),
    ]);
    let m = calculate_moves(&b, 4, 4);
    assert_eq!(m.len(), 7);
    assert!(!m.contains(&(2, 3)));
    assert!(m.contains(&(2, 5)));
}

#[test]
fn king_in_middle_has_eight_moves() {
    let b = board_with(&[(4, 4, Kind::King, Side::Black)]);
    assert_eq!(
        sorted(calculate_moves(&b, 4, 4)),
        vec![(3, 3), (3, 4), (3, 5), (4, 3), (4, 5), (5, 3), (5, 4), (5, 5)]
    );
}

#[test]
fn empty_square_has_no_moves() {
    let b = Board::new_empty();
    assert!(calculate_moves(&b, 3, 3).is_empty());
}

#[test]
fn destinations_are_on_board_and_not_own_side() {
    let b = board_with(&[
        (0, 0, Kind::Rook, Side::White),
        (0, 3, Kind::Queen, Side::White),
        (1, 1, Kind::Bishop, Side::Black),
        (7, 7, Kind::King, Side::White),
        (6, 6, Kind::Pawn(false), Side::White),
        (7, 6, Kind::Knight, Side::Black),
        (3, 3, Kind::Pawn(false), Side::Black),
    ]);
    for r in 0..8 {
        for c in 0..8 {
            let p = b.get(r, c);
            if p.kind == Kind::Empty {
                continue;
            }
            for (tr, tc) in calculate_moves(&b, r, c) {
                assert!(tr < 8 && tc < 8);
                assert_ne!(b.get(tr, tc).side, p.side);
            }
        }
    }
}

#[test]
fn rook_ray_stops_at_first_occupied_square() {
    let b = board_with(&[
        (4, 4, Kind::Rook, Side::White),
        (4, 6, Kind::Pawn(false), Side::White),
        (2, 4, Kind::Pawn(false), Side::Black),
    ]);
    let m = calculate_moves(&b, 4, 4);
    assert!(m.contains(&(4, 5)));
    assert!(!m.contains(&(4, 6)));
    assert!(!m.contains(&(4, 7)));
    assert!(m.contains(&(3, 4)));
    assert!(m.contains(&(2, 4)));
    assert!(!m.contains(&(1, 4)));
    assert!(!m.contains(&(0, 4)));
    // left: 4 squares, down: 3 squares, right: 1, up: 2
    assert_eq!(m.len(), 10);
}

#[test]
fn bishop_ray_takes_first_enemy_only() {
    let b = board_with(&[
        (7, 0, Kind::Bishop, Side::Black),
        (5, 2, Kind::Knight, Side::White),
        (4, 3, Kind::Knight, Side::White),
    ]);
    assert_eq!(sorted(calculate_moves(&b, 7, 0)), vec![(5, 2), (6, 1)]);
}

#[test]
fn queen_on_empty_board_has_twenty_seven_moves() {
    let b = board_with(&[(3, 3, Kind::Queen, Side::White)]);
    let m = calculate_moves(&b, 3, 3);
    assert_eq!(m.len(), 27);
    let mut d = m.clone();
    d.sort();
    d.dedup();
    assert_eq!(d.len(), 27);
}

#[test]
fn pawn_on_start_row_has_two_forward_moves() {
    let b = board_with(&[(6, 4, Kind::Pawn(false), Side::White)]);
    assert_eq!(sorted(calculate_moves(&b, 6, 4)), vec![(4, 4), (5, 4)]);
}

#[test]
fn pawn_on_start_row_with_far_square_blocked_has_one_forward_move() {
    let b = board_with(&[(6, 4, Kind::Pawn(false), Side::White), (4, 4, Kind::Pawn(false), Side::Black)]);
    assert_eq!(calculate_moves(&b, 6, 4), vec![(5, 4)]);
}

#[test]
fn pawn_double_step_needs_the_square_between_free() {
    let b = board_with(&[(1, 2, Kind::Pawn(false), Side::Black), (2, 2, Kind::Knight, Side::White)]);
    assert!(calculate_moves(&b, 1, 2).is_empty());
}

#[test]
fn pawn_on_start_row_has_at_most_four_destinations() {
    let b = board_with(&[
        (6, 4, Kind::Pawn(false), Side::White),
        (5, 3, Kind::Rook, Side::Black),
        (5, 5, Kind::Rook, Side::Black),
        (6, 3, Kind::Pawn(true), Side::Black),
        (6, 5, Kind::Pawn(true), Side::Black),
    ]);
    assert_eq!(sorted(calculate_moves(&b, 6, 4)), vec![(4, 4), (5, 3), (5, 4), (5, 5)]);
}

#[test]
fn black_pawn_moves_toward_row_seven() {
    let b = board_with(&[(3, 0, Kind::Pawn(false), Side::Black), (4, 1, Kind::Bishop, Side::White)]);
    assert_eq!(sorted(calculate_moves(&b, 3, 0)), vec![(4, 0), (4, 1)]);
}

#[test]
fn pawn_takes_en_passant_only_a_flagged_pawn() {
    let b = board_with(&[
        (3, 4, Kind::Pawn(false), Side::White),
        (3, 3, Kind::Pawn(true), Side::Black),
        (3, 5, Kind::Pawn(false), Side::Black),
    ]);
    assert_eq!(sorted(calculate_moves(&b, 3, 4)), vec![(2, 3), (2, 4)]);
}

#[test]
fn apply_moves_the_piece_and_empties_the_source() {
    let mut b = board_with(&[(7, 1, Kind::Knight, Side::White), (5, 2, Kind::Pawn(false), Side::Black)]);
    make_move(&mut b, (7, 1), (5, 2));
    assert_eq!(b.get(7, 1), Piece::new_empty());
    assert_eq!(b.get(5, 2), Piece::new(Kind::Knight, Side::White));
}

#[test]
fn apply_en_passant_removes_the_pawn_taken() {
    let mut b = board_with(&[(3, 4, Kind::Pawn(false), Side::White), (3, 3, Kind::Pawn(true), Side::Black)]);
    make_move(&mut b, (3, 4), (2, 3));
    assert_eq!(b.get(2, 3), Piece::new(Kind::Pawn(false), Side::White));
    assert_eq!(b.get(3, 3), Piece::new_empty());
    assert_eq!(b.get(3, 4), Piece::new_empty());
}

#[test]
fn apply_double_step_sets_the_flag() {
    let mut b = board_with(&[(1, 6, Kind::Pawn(false), Side::Black)]);
    make_move(&mut b, (1, 6), (3, 6));
    assert_eq!(b.get(3, 6), Piece::new(Kind::Pawn(true), Side::Black));
    assert_eq!(b.get(1, 6), Piece::new_empty());
}

#[test]
fn white_pawn_on_row_zero_becomes_queen() {
    let mut b = board_with(&[(1, 2, Kind::Pawn(false), Side::White), (0, 3, Kind::Rook, Side::Black)]);
    make_move(&mut b, (1, 2), (0, 3));
    assert_eq!(b.get(0, 3), Piece::new(Kind::Queen, Side::White));
}

#[test]
fn black_pawn_on_row_seven_becomes_queen() {
    let mut b = board_with(&[(6, 7, Kind::Pawn(false), Side::Black)]);
    make_move(&mut b, (6, 7), (7, 7));
    assert_eq!(b.get(7, 7), Piece::new(Kind::Queen, Side::Black));
}

#[test]
fn check_is_symmetric_under_color_swap() {
    let b = board_with(&[
        (7, 4, Kind::King, Side::White),
        (2, 4, Kind::Rook, Side::Black),
        (6, 0, Kind::Pawn(false), Side::White),
        (5, 1, Kind::Knight, Side::Black),
    ]);
    // rows mirrored and sides swapped
    let inv = board_with(&[
        (0, 4, Kind::King, Side::Black),
        (5, 4, Kind::Rook, Side::White),
        (1, 0, Kind::Pawn(false), Side::Black),
        (2, 1, Kind::Knight, Side::White),
    ]);
    assert_eq!(king_in_check(&b, Side::White), Ok(true));
    assert_eq!(king_in_check(&inv, Side::Black), Ok(true));

    let pawn = board_with(&[(7, 4, Kind::King, Side::White), (6, 3, Kind::Pawn(false), Side::Black)]);
    let pawn_inv = board_with(&[(0, 4, Kind::King, Side::Black), (1, 3, Kind::Pawn(false), Side::White)]);
    assert_eq!(king_in_check(&pawn, Side::White), Ok(true));
    assert_eq!(king_in_check(&pawn_inv, Side::Black), Ok(true));

    let safe = board_with(&[(7, 4, Kind::King, Side::White), (5, 4, Kind::Pawn(false), Side::Black)]);
    let safe_inv = board_with(&[(0, 4, Kind::King, Side::Black), (2, 4, Kind::Pawn(false), Side::White)]);
    assert_eq!(king_in_check(&safe, Side::White), Ok(false));
    assert_eq!(king_in_check(&safe_inv, Side::Black), Ok(false));
}

#[test]
fn king_in_check_of_empty_side_is_an_error() {
    let b = board_with(&[(7, 4, Kind::King, Side::White)]);
    assert_eq!(king_in_check(&b, Side::Empty), Err(ChessError::NoSide));
}

#[test]
fn pinned_rook_keeps_to_its_file() {
    let b = board_with(&[
        (7, 4, Kind::King, Side::White),
        (6, 4, Kind::Rook, Side::White),
        (0, 4, Kind::Rook, Side::Black),
    ]);
    let legal = legal_moves(&b, 6, 4);
    assert_eq!(sorted(legal.clone()), vec![(0, 4), (1, 4), (2, 4), (3, 4), (4, 4), (5, 4)]);
    for m in legal {
        let mut copy = b;
        make_move(&mut copy, (6, 4), m);
        assert_eq!(king_in_check(&copy, Side::White), Ok(false));
    }
}

#[test]
fn king_cannot_stay_on_the_rook_file() {
    let b = board_with(&[(7, 4, Kind::King, Side::White), (0, 4, Kind::Rook, Side::Black)]);
    let legal = legal_moves(&b, 7, 4);
    assert!(!legal.contains(&(6, 4)));
    assert!(legal.contains(&(7, 3)));
    assert!(legal.contains(&(7, 5)));
    assert_eq!(sorted(legal), vec![(6, 3), (6, 5), (7, 3), (7, 5)]);

    let mut s = State::new(b);
    s.update_based_on_click(Some((7, 4)));
    assert_eq!(sorted(s.selected_piece_moves().clone()), vec![(6, 3), (6, 5), (7, 3), (7, 5)]);
}

#[test]
fn en_passant_after_a_double_step() {
    let b = board_with(&[(6, 4, Kind::Pawn(false), Side::White), (4, 3, Kind::Pawn(false), Side::Black)]);
    let mut s = State::new(b);
    s.update_based_on_click(Some((6, 4)));
    assert!(s.selected_piece_moves().contains(&(4, 4)));
    s.update_based_on_click(Some((4, 4)));
    assert_eq!(s.board().get(4, 4), Piece::new(Kind::Pawn(true), Side::White));
    assert_eq!(s.turn(), Turn::Black);

    s.update_based_on_click(Some((4, 3)));
    assert!(s.selected_piece_moves().contains(&(5, 4)));
    s.update_based_on_click(Some((5, 4)));
    assert_eq!(s.board().get(5, 4).kind, Kind::Pawn(false));
    assert_eq!(s.board().get(5, 4).side, Side::Black);
    assert_eq!(s.board().get(4, 4), Piece::new_empty());
    assert_eq!(s.board().get(4, 3), Piece::new_empty());
    assert_eq!(s.turn(), Turn::White);
}

#[test]
fn en_passant_window_lasts_one_move() {
    let b = board_with(&[
        (6, 4, Kind::Pawn(false), Side::White),
        (4, 3, Kind::Pawn(false), Side::Black),
        (0, 0, Kind::King, Side::Black),
        (7, 7, Kind::King, Side::White),
    ]);
    let mut s = State::new(b);
    s.update_based_on_click(Some((6, 4)));
    s.update_based_on_click(Some((4, 4)));
    // Black plays elsewhere, then White, and the flag is gone
    s.update_based_on_click(Some((0, 0)));
    s.update_based_on_click(Some((0, 1)));
    assert_eq!(s.board().get(4, 4).kind, Kind::Pawn(false));
    s.update_based_on_click(Some((7, 7)));
    s.update_based_on_click(Some((7, 6)));
    s.update_based_on_click(Some((4, 3)));
    assert_eq!(s.selected_piece_moves(), &vec![(5, 3)]);
}

#[test]
fn selecting_an_opponent_piece_selects_nothing() {
    let b = board_with(&[(7, 4, Kind::King, Side::White), (1, 1, Kind::Pawn(false), Side::Black)]);
    let mut s = State::new(b);
    s.update_based_on_click(Some((1, 1)));
    assert!(s.selected_piece_moves().is_empty());
    assert_eq!(s.turn(), Turn::White);
    assert!(s.board().get(1, 1).selected);
}

#[test]
fn clicking_an_empty_square_deselects() {
    let b = board_with(&[(7, 4, Kind::King, Side::White)]);
    let mut s = State::new(b);
    s.update_based_on_click(Some((7, 4)));
    assert_eq!(s.selected_piece_index(), (7, 4));
    assert!(s.board().get(7, 4).selected);
    assert_eq!(s.selected_piece_moves().len(), 5);
    s.update_based_on_click(Some((3, 3)));
    assert!(s.selected_piece_moves().is_empty());
    assert!(!s.board().get(7, 4).selected);
    assert_eq!(s.turn(), Turn::White);
}

#[test]
fn clicks_off_the_board_or_absent_change_nothing() {
    let b = board_with(&[(7, 4, Kind::King, Side::White)]);
    let mut s = State::new(b);
    s.update_based_on_click(Some((7, 4)));
    s.update_based_on_click(Some((8, 2)));
    s.update_based_on_click(None);
    assert_eq!(s.selected_piece_moves().len(), 5);
    assert!(s.board().get(7, 4).selected);
}

#[test]
fn a_move_passes_the_turn() {
    let b = board_with(&[(7, 1, Kind::Knight, Side::White), (0, 1, Kind::Knight, Side::Black)]);
    let mut s = State::new(b);
    s.update_based_on_click(Some((7, 1)));
    s.update_based_on_click(Some((5, 2)));
    assert_eq!(s.turn(), Turn::Black);
    assert!(s.selected_piece_moves().is_empty());
    assert_eq!(s.board().get(5, 2), Piece::new(Kind::Knight, Side::White));
    // White may not move again
    s.update_based_on_click(Some((5, 2)));
    assert!(s.selected_piece_moves().is_empty());
}

#[test]
fn side_opposite_and_turn_colors() {
    assert_eq!(Side::White.opposite(), Ok(Side::Black));
    assert_eq!(Side::Black.opposite(), Ok(Side::White));
    assert_eq!(Side::Empty.opposite(), Err(ChessError::NoSide));
    assert_eq!(Turn::opposite(&Turn::White), Turn::Black);
    assert_eq!(Turn::opposite(&Turn::Black), Turn::White);
    assert_eq!(Side::as_turn_color(Turn::White), Side::White);
    assert_eq!(Side::as_turn_color(Turn::Black), Side::Black);
}

#[test]
fn texture_indices() {
    assert_eq!(Piece::new_empty().get_tex_index(), 0);
    assert_eq!(Piece::new(Kind::Pawn(true), Side::White).get_tex_index(), 0);
    assert_eq!(Piece::new(Kind::Knight, Side::White).get_tex_index(), 1);
    assert_eq!(Piece::new(Kind::King, Side::White).get_tex_index(), 5);
    assert_eq!(Piece::new(Kind::Pawn(false), Side::Black).get_tex_index(), 6);
    assert_eq!(Piece::new(Kind::Queen, Side::Black).get_tex_index(), 10);
    assert_eq!(Piece::new(Kind::King, Side::Black).get_tex_index(), 11);
}

#[test]
fn clearing_flags_and_highlights() {
    let mut b = board_with(&[(4, 4, Kind::Pawn(true), Side::White), (3, 3, Kind::Rook, Side::Black)]);
    b.set(3, 3, Piece { kind: Kind::Rook, selected: true, side: Side::Black });
    goodman_chess::board::clear_en_passant_flags(&mut b);
    assert_eq!(b.get(4, 4), Piece::new(Kind::Pawn(false), Side::White));
    assert!(b.get(3, 3).selected);
    goodman_chess::board::deselect_every_piece(&mut b);
    assert_eq!(b.get(3, 3), Piece::new(Kind::Rook, Side::Black));
}
