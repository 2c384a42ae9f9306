//! The selection/turn state machine of a game: a click selects one of the
//! moving side's pieces and lists its legal destinations; a click on one of
//! those destinations plays the move and passes the turn.

use vstd::prelude::*;
use crate::board::{
    clear_en_passant_flags, deselect_every_piece, deselected, flags_cleared, piece_at, square_index, Board,
};
use crate::check::{is_legal_move, legal_moves};
use crate::execute::{after_move, make_move};
use crate::piece::{next_turn, opponent, turn_side, Kind, Piece, Side, Turn};

verus! {

/// The abstract state of a game.
pub struct GameView {
    pub board: Seq<Piece>,
    pub turn: Turn,
    /// The legal destinations of the selected piece; empty when nothing is selected.
    pub moves: Seq<(usize, usize)>,
    pub selected: (usize, usize),
}

/// The board with the piece on (row, col) highlighted.
pub open spec fn highlighted(b: Seq<Piece>, row: int, col: int) -> Seq<Piece> {
    let p = piece_at(b, row, col);
    b.update(square_index(row, col), Piece { kind: p.kind, selected: true, side: p.side })
}

/// A game is consistent when its board is well formed and, while a piece is
/// selected, that piece belongs to the side to move and each listed
/// destination is a legal move of it, listed once.
pub open spec fn game_wf(g: GameView) -> bool {
    &&& crate::board::board_wf(g.board)
    &&& g.selected.0 < 8 && g.selected.1 < 8
    &&& g.moves.no_duplicates()
    &&& g.moves.len() > 0 ==> piece_at(g.board, g.selected.0 as int, g.selected.1 as int).side == turn_side(g.turn)
    &&& forall|t: (usize, usize)|
        g.moves.contains(t) ==> is_legal_move(g.board, g.selected.0 as int, g.selected.1 as int, t.0 as int, t.1 as int)
}

/// A click on (row, col) plays the pending move there: the destination is
/// among the listed ones and is empty or held by the opposing side.
pub open spec fn click_commits(g: GameView, row: int, col: int) -> bool {
    let b = deselected(g.board);
    &&& g.moves.contains((row as usize, col as usize))
    &&& {
        let clicked = piece_at(b, row, col).side;
        clicked == opponent(piece_at(b, g.selected.0 as int, g.selected.1 as int).side) || clicked == Side::Empty
    }
}

pub struct State {
    turn: Turn,
    board: Board,
    selected_piece_moves: Vec<(usize, usize)>,
    selected_piece_index: (usize, usize),
}

impl View for State {
    type V = GameView;

    closed spec fn view(&self) -> GameView {
        GameView {
            board: self.board@,
            turn: self.turn,
            moves: self.selected_piece_moves@,
            selected: self.selected_piece_index,
        }
    }
}

impl State {
    pub open spec fn wf(&self) -> bool {
        game_wf(self@)
    }

    /// A game on `board` with White to move and nothing selected.
    pub fn new(board: Board) -> (r: State)
        requires
            board.wf(),
        ensures
            r.wf(),
            r@.board == board@,
            r@.turn == Turn::White,
            r@.moves.len() == 0,
    {
        State { turn: Turn::White, board, selected_piece_moves: Vec::new(), selected_piece_index: (0, 0) }
    }

    /// Handles a click on square `click` = (row, col); `None`, or a square
    /// off the board, changes nothing. Otherwise every highlight is cleared,
    /// then:
    /// - on a listed destination that is empty or held by the opposing side,
    ///   the pawns' en passant flags are cleared, the selected piece moves
    ///   there, the turn passes and nothing stays selected;
    /// - on an empty square, nothing stays selected;
    /// - on a piece, it is highlighted; if it belongs to the side to move it
    ///   becomes the selection with its legal destinations, else nothing
    ///   stays selected.
    #[verifier::loop_isolation(false)]
    pub fn update_based_on_click(&mut self, click: Option<(usize, usize)>)
        requires
            old(self).wf(),
        ensures
            final(self).wf(),
            ({
                let g = old(self)@;
                let n = final(self)@;
                match click {
                    Option::Some((row, col)) if row < 8 && col < 8 => {
                        let (r, c) = (row as int, col as int);
                        let b = deselected(g.board);
                        let p = piece_at(b, r, c);
                        if click_commits(g, r, c) {
                            &&& n.board == after_move(flags_cleared(b), g.selected.0 as int, g.selected.1 as int, r, c)
                            &&& n.turn == next_turn(g.turn)
                            &&& n.moves.len() == 0
                        } else if p.kind == Kind::Empty {
                            &&& n.board == b
                            &&& n.turn == g.turn
                            &&& n.moves.len() == 0
                        } else if p.side == turn_side(g.turn) {
                            &&& n.board == highlighted(b, r, c)
                            &&& n.turn == g.turn
                            &&& n.selected == (row, col)
                            &&& forall|t: (usize, usize)|
                                n.moves.contains(t) <==> is_legal_move(n.board, r, c, t.0 as int, t.1 as int)
                        } else {
                            &&& n.board == highlighted(b, r, c)
                            &&& n.turn == g.turn
                            &&& n.moves.len() == 0
                        }
                    },
                    _ => n == g,
                }
            }),
    {
        let (j, i) = match click {
            Some((row, col)) => {
                if row >= 8 || col >= 8 {
                    return;
                }
                (row, col)
            },
            None => return,
        };
        let ghost g = self@;
        deselect_every_piece(&mut self.board);
        // play the pending move if the click is on one of its destinations
        if self.selected_piece_moves.len() > 0 {
            let selected_index = self.selected_piece_index;
            let side_clicked = self.board.get(j, i).side;
            let side_moving = self.board.get(selected_index.0, selected_index.1).side;
            let opposing = match side_moving.opposite() {
                Ok(s) => side_clicked == s,
                Err(_) => false,
            };
            if opposing || side_clicked == Side::Empty {
                let mut k: usize = 0;
                while k < self.selected_piece_moves.len()
                    invariant
                        k <= self.selected_piece_moves@.len(),
                        self.board.wf(),
                        self.board@ == deselected(g.board),
                        self.turn == g.turn,
                        self.selected_piece_moves@ == g.moves,
                        self.selected_piece_index == g.selected,
                        forall|x: int| 0 <= x < k ==> self.selected_piece_moves@[x] != (j, i),
                    decreases self.selected_piece_moves@.len() - k,
                {
                    let m = self.selected_piece_moves[k];
                    if m.0 == j && m.1 == i {
                        clear_en_passant_flags(&mut self.board);
                        make_move(&mut self.board, selected_index, (j, i));
                        self.turn = Turn::opposite(&self.turn);
                        self.selected_piece_moves = Vec::new();
                        return;
                    }
                    k = k + 1;
                }
            }
        }
        let piece = self.board.get(j, i);
        if piece.kind == Kind::Empty {
            self.selected_piece_moves = Vec::new();
            return;
        }
        self.board.set(j, i, Piece { kind: piece.kind, selected: true, side: piece.side });
        // select the piece and list its legal destinations
        if piece.side == Side::as_turn_color(self.turn) {
            self.selected_piece_moves = legal_moves(&self.board, j, i);
            self.selected_piece_index = (j, i);
        } else {
            self.selected_piece_moves = Vec::new();
        }
    }

    pub fn board(&self) -> (r: &Board)
        ensures
            r@ == self@.board,
    {
        &self.board
    }

    pub fn turn(&self) -> (r: Turn)
        ensures
            r == self@.turn,
    {
        self.turn
    }

    /// The legal destinations of the selected piece, for highlighting.
    pub fn selected_piece_moves(&self) -> (r: &Vec<(usize, usize)>)
        ensures
            r@ == self@.moves,
    {
        &self.selected_piece_moves
    }

    pub fn selected_piece_index(&self) -> (r: (usize, usize))
        ensures
            r == self@.selected,
    {
        self.selected_piece_index
    }
}

} // verus!
