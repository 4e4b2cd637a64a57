//! The board: an 8x8 grid of piece values (stored row-major, rank then
//! file) plus the active-color flag, with its mathematical view and the
//! primitive square accessors.

use vstd::prelude::*;

use crate::piece::Piece;

verus! {

/// A square address: `[rank, file]`, each in `0..8`.
pub type Position = [usize; 2];

/// The mathematical view of a board: 64 squares (index `rank * 8 + file`)
/// and the side to move (`false` = white, `true` = black).
pub struct BoardView {
    pub squares: Seq<Piece>,
    pub active_color: bool,
}

/// Linear square index of a rank/file pair.
pub open spec fn sq(r: int, f: int) -> int {
    r * 8 + f
}

/// The cosmetic marker a vacated square is cleared to: empty, shaded by
/// the checkerboard pattern.
pub open spec fn empty_marker(r: int, f: int) -> Piece {
    Piece::Empty { dark: (r + f) % 2 != 0 }
}

impl BoardView {
    /// The piece on square (r, f).
    pub open spec fn at(self, r: int, f: int) -> Piece {
        self.squares[sq(r, f)]
    }

    /// The view after a bare relocation: the destination receives the
    /// origin's piece and the origin is cleared to its checkerboard
    /// marker. No turn toggle, no other bookkeeping.
    pub open spec fn relocated(self, fr: int, ff: int, tr: int, tf: int) -> BoardView {
        BoardView {
            squares: self.squares.update(sq(tr, tf), self.at(fr, ff)).update(
                sq(fr, ff),
                empty_marker(fr, ff),
            ),
            active_color: self.active_color,
        }
    }
}

/// The 8x8 board with its active-color flag.
#[derive(Clone, Copy)]
pub struct BoardMap {
    squares: [Piece; 64],
    active_color: bool,
}

impl View for BoardMap {
    type V = BoardView;

    closed spec fn view(&self) -> BoardView {
        BoardView { squares: self.squares@, active_color: self.active_color }
    }
}

impl Default for BoardMap {
    /// An all-empty board (light shade everywhere) with white to move.
    fn default() -> (r: Self)
        ensures
            r@.active_color == false,
            forall|i: int| 0 <= i < 64 ==> r@.squares[i] == (Piece::Empty { dark: false }),
    {
        BoardMap { squares: [Piece::Empty { dark: false }; 64], active_color: false }
    }
}

/// Every board view has exactly 64 squares.
pub broadcast proof fn lemma_board_view_len(b: BoardMap)
    ensures
        (#[trigger] b@).squares.len() == 64,
{
}

impl BoardMap {
    /// The piece on a square.
    pub fn get_piece(&self, on: Position) -> (r: Piece)
        requires
            on[0] < 8,
            on[1] < 8,
        ensures
            r == self@.at(on[0] as int, on[1] as int),
    {
        self.squares[on[0] * 8 + on[1]]
    }

    /// Whose turn it is: `false` = white, `true` = black.
    pub fn get_active_color(&self) -> (r: bool)
        ensures
            r == self@.active_color,
    {
        self.active_color
    }

    /// Overwrite one square.
    pub(crate) fn set_piece(&mut self, on: Position, value: Piece)
        requires
            on[0] < 8,
            on[1] < 8,
        ensures
            final(self)@.squares == old(self)@.squares.update(
                sq(on[0] as int, on[1] as int),
                value,
            ),
            final(self)@.active_color == old(self)@.active_color,
    {
        self.squares[on[0] * 8 + on[1]] = value;
    }

    /// Set whose turn it is.
    pub(crate) fn set_active_color(&mut self, c: bool)
        ensures
            final(self)@.squares == old(self)@.squares,
            final(self)@.active_color == c,
    {
        self.active_color = c;
    }

    /// Flip whose turn it is.
    pub(crate) fn toggle_active_color(&mut self)
        ensures
            final(self)@.squares == old(self)@.squares,
            final(self)@.active_color == !old(self)@.active_color,
    {
        self.active_color = !self.active_color;
    }

    /// Bare relocation of the piece on `from` to `to`, clearing `from`
    /// to its checkerboard marker. No turn toggle, no legality check.
    pub(crate) fn make_move(&mut self, from: Position, to: Position)
        requires
            from[0] < 8,
            from[1] < 8,
            to[0] < 8,
            to[1] < 8,
        ensures
            final(self)@ == old(self)@.relocated(
                from[0] as int,
                from[1] as int,
                to[0] as int,
                to[1] as int,
            ),
    {
        let piece = self.get_piece(from);
        self.set_piece(to, piece);
        self.set_piece(
            from,
            Piece::Empty { dark: (from[0] + from[1]) % 2 != 0 },
        );
    }
}

} // verus!
