//! Position-description ingestion and emission, and a textual rendering.
//!
//! The ingestion format is FEN-like: the first field gives the board,
//! eight rank groups separated by `/`, most significant rank first, with
//! digits standing for runs of empty squares and letters for pieces
//! (uppercase white, lowercase black); the second field is the active
//! color, `w` or `b`. Later fields (castling, en passant, counters) are
//! not consumed. The parser is deliberately lenient: unrecognized
//! characters in the board field become empty-square placeholders (shaded
//! by the letter's case), overlong placements are ignored once the board
//! is full, and a missing or unrecognized color token means white to
//! move.

use vstd::prelude::*;
use vstd::string::StrSliceExecFns;
use vstd::string::StringExecFns;

use crate::board::{sq, BoardMap, BoardView};
use crate::piece::{Piece, PieceType};

verus! {

broadcast use crate::board::lemma_board_view_len;

/// Whitespace that ends the board field.
pub open spec fn is_space(c: char) -> bool {
    c == ' ' || c == '\t' || c == '\n' || c == '\r'
}

/// An ASCII decimal digit.
pub open spec fn is_digit(c: char) -> bool {
    48 <= c as int && c as int <= 57
}

/// Numeric value of an ASCII digit.
pub open spec fn digit_val(c: char) -> int {
    c as int - 48
}

/// An ASCII uppercase letter; uppercase letters denote white.
pub open spec fn is_upper(c: char) -> bool {
    65 <= c as int && c as int <= 90
}

/// The color a board-field character denotes: white (`false`) iff the
/// character is uppercase.
pub open spec fn color_of_char(c: char) -> bool {
    !is_upper(c)
}

/// The piece kind a board-field letter denotes, either case.
pub open spec fn kind_of_letter(c: char) -> Option<PieceType> {
    if c == 'p' || c == 'P' {
        Some(PieceType::Pawn)
    } else if c == 'r' || c == 'R' {
        Some(PieceType::Rook)
    } else if c == 'b' || c == 'B' {
        Some(PieceType::Bishop)
    } else if c == 'q' || c == 'Q' {
        Some(PieceType::Queen)
    } else if c == 'k' || c == 'K' {
        Some(PieceType::King)
    } else if c == 'n' || c == 'N' {
        Some(PieceType::Knight)
    } else {
        None
    }
}

/// The square content a board-field character denotes: a piece for a
/// recognized letter, an empty placeholder (shaded by case) otherwise.
pub open spec fn piece_of_char(c: char) -> Piece {
    match kind_of_letter(c) {
        Some(kind) => Piece::Occupied { color: color_of_char(c), kind },
        None => Piece::Empty { dark: color_of_char(c) },
    }
}

/// Linear square index addressed by the `index`-th board-field cell:
/// cells run from the top rank down, files left to right.
pub open spec fn fen_square(index: int) -> int {
    sq(7 - index / 8, index % 8)
}

/// One board-field character applied to the squares and running cell
/// index: digits advance the index (saturating at 64), `/` is skipped,
/// any other character fills the current cell when one is left.
pub open spec fn place_step(sqs: Seq<Piece>, c: char, index: int) -> (Seq<Piece>, int) {
    if is_digit(c) {
        let idx2 = index + digit_val(c);
        (sqs, if idx2 > 64 { 64int } else { idx2 })
    } else if c == '/' {
        (sqs, index)
    } else if index < 64 {
        (sqs.update(fen_square(index), piece_of_char(c)), index + 1)
    } else {
        (sqs, index)
    }
}

/// The squares after consuming the board field from position `i` (cell
/// index `index`) up to the first whitespace or the end of the string.
pub open spec fn place_from(sqs: Seq<Piece>, s: Seq<char>, i: int, index: int) -> Seq<Piece>
    decreases s.len() - i,
{
    if i < 0 || i >= s.len() || is_space(s[i]) {
        sqs
    } else {
        place_from(place_step(sqs, s[i], index).0, s, i + 1, place_step(sqs, s[i], index).1)
    }
}

/// Position of the first whitespace at or after `i` (or the end).
pub open spec fn token_end(s: Seq<char>, i: int) -> int
    decreases s.len() - i,
{
    if i < 0 || i >= s.len() || is_space(s[i]) {
        i
    } else {
        token_end(s, i + 1)
    }
}

/// The active color read after position `i`: whitespace is skipped and
/// the first remaining character compared against `b`; black only on a
/// `b`, white otherwise or when the string ends.
pub open spec fn active_from(s: Seq<char>, i: int) -> bool
    decreases s.len() - i,
{
    if i < 0 || i >= s.len() {
        false
    } else if is_space(s[i]) {
        active_from(s, i + 1)
    } else {
        s[i] == 'b'
    }
}

/// The squares of an all-empty, light-shaded board.
pub open spec fn start_squares() -> Seq<Piece> {
    Seq::new(64, |i: int| Piece::Empty { dark: false })
}

/// The digit character for a run length (1 to 8).
pub open spec fn digit_char(n: int) -> char {
    if n == 1 {
        '1'
    } else if n == 2 {
        '2'
    } else if n == 3 {
        '3'
    } else if n == 4 {
        '4'
    } else if n == 5 {
        '5'
    } else if n == 6 {
        '6'
    } else if n == 7 {
        '7'
    } else if n == 8 {
        '8'
    } else {
        '0'
    }
}

/// The board-field letter for a piece: uppercase white, lowercase black.
pub open spec fn char_of_piece(color: bool, kind: PieceType) -> char {
    match kind {
        PieceType::Pawn => if color { 'p' } else { 'P' },
        PieceType::Rook => if color { 'r' } else { 'R' },
        PieceType::Bishop => if color { 'b' } else { 'B' },
        PieceType::Queen => if color { 'q' } else { 'Q' },
        PieceType::King => if color { 'k' } else { 'K' },
        PieceType::Knight => if color { 'n' } else { 'N' },
    }
}

/// The board-field text of rank `r` from file `f` on, with `run` empty
/// squares already pending: runs of empties become one digit, pieces
/// their letter.
pub open spec fn rank_chars(v: BoardView, r: int, f: int, run: int) -> Seq<char>
    decreases 8 - f,
{
    if f < 0 || f >= 8 {
        if run > 0 {
            seq![digit_char(run)]
        } else {
            Seq::empty()
        }
    } else {
        match v.at(r, f) {
            Piece::Occupied { color, kind } => (if run > 0 {
                seq![digit_char(run)]
            } else {
                Seq::empty()
            }) + seq![char_of_piece(color, kind)] + rank_chars(v, r, f + 1, 0),
            Piece::Empty { .. } => rank_chars(v, r, f + 1, run + 1),
        }
    }
}

/// The board field: ranks `r` down to 0, `/`-separated.
pub open spec fn placement_chars(v: BoardView, r: int) -> Seq<char>
    decreases r,
{
    if r <= 0 {
        rank_chars(v, 0, 0, 0)
    } else {
        rank_chars(v, r, 0, 0) + seq!['/'] + placement_chars(v, r - 1)
    }
}

/// The full serialized position: board field, a space, and the
/// active-color token. Castling, en passant and move counters are not
/// part of this reduced-fidelity serialization.
pub open spec fn fen_chars(v: BoardView) -> Seq<char> {
    placement_chars(v, 7) + seq![' '] + seq![if v.active_color { 'b' } else { 'w' }]
}

fn is_space_char(c: char) -> (r: bool)
    ensures
        r == is_space(c),
{
    c == ' ' || c == '\t' || c == '\n' || c == '\r'
}

fn is_digit_char(c: char) -> (r: bool)
    ensures
        r == is_digit(c),
{
    let u = c as u32;
    48 <= u && u <= 57
}

fn piece_of_char_exec(c: char) -> (r: Piece)
    ensures
        r == piece_of_char(c),
{
    let u = c as u32;
    let color = !(65 <= u && u <= 90);
    if c == 'p' || c == 'P' {
        Piece::Occupied { color, kind: PieceType::Pawn }
    } else if c == 'r' || c == 'R' {
        Piece::Occupied { color, kind: PieceType::Rook }
    } else if c == 'b' || c == 'B' {
        Piece::Occupied { color, kind: PieceType::Bishop }
    } else if c == 'q' || c == 'Q' {
        Piece::Occupied { color, kind: PieceType::Queen }
    } else if c == 'k' || c == 'K' {
        Piece::Occupied { color, kind: PieceType::King }
    } else if c == 'n' || c == 'N' {
        Piece::Occupied { color, kind: PieceType::Knight }
    } else {
        Piece::Empty { dark: color }
    }
}

/// The character a square renders as: a piece's letter, `.` when empty.
pub open spec fn square_char(p: Piece) -> char {
    match p {
        Piece::Empty { .. } => '.',
        Piece::Occupied { color, kind } => char_of_piece(color, kind),
    }
}

/// One rendered rank from file `f` on, newline-terminated.
pub open spec fn render_rank(v: BoardView, r: int, f: int) -> Seq<char>
    decreases 8 - f,
{
    if f < 0 || f >= 8 {
        seq!['\n']
    } else {
        seq![square_char(v.at(r, f))] + render_rank(v, r, f + 1)
    }
}

/// The rendered rows for ranks `r` down to 0, each prefixed with its
/// rank label.
pub open spec fn render_rows(v: BoardView, r: int) -> Seq<char>
    decreases r + 1,
{
    if r < 0 {
        Seq::empty()
    } else {
        seq![digit_char(r + 1), ' '] + render_rank(v, r, 0) + render_rows(v, r - 1)
    }
}

/// The full rendering: all eight ranks top down, a file-letter footer,
/// and a whose-turn line.
pub open spec fn render_chars(v: BoardView) -> Seq<char> {
    render_rows(v, 7) + "  abcdefgh\n"@ + (if v.active_color {
        "black to move\n"@
    } else {
        "white to move\n"@
    })
}

fn push_digit(out: &mut String, n: usize)
    requires
        1 <= n <= 8,
    ensures
        final(out)@ == old(out)@.push(digit_char(n as int)),
{
    if n == 1 {
        proof {
            reveal_strlit("1");
        }
        out.append("1");
    } else if n == 2 {
        proof {
            reveal_strlit("2");
        }
        out.append("2");
    } else if n == 3 {
        proof {
            reveal_strlit("3");
        }
        out.append("3");
    } else if n == 4 {
        proof {
            reveal_strlit("4");
        }
        out.append("4");
    } else if n == 5 {
        proof {
            reveal_strlit("5");
        }
        out.append("5");
    } else if n == 6 {
        proof {
            reveal_strlit("6");
        }
        out.append("6");
    } else if n == 7 {
        proof {
            reveal_strlit("7");
        }
        out.append("7");
    } else {
        proof {
            reveal_strlit("8");
        }
        out.append("8");
    }
    proof {
        assert(out@ =~= old(out)@.push(digit_char(n as int)));
    }
}

fn push_piece_char(out: &mut String, color: bool, kind: PieceType)
    ensures
        final(out)@ == old(out)@.push(char_of_piece(color, kind)),
{
    match kind {
        PieceType::Pawn => if color {
            proof {
                reveal_strlit("p");
            }
            out.append("p");
        } else {
            proof {
                reveal_strlit("P");
            }
            out.append("P");
        },
        PieceType::Rook => if color {
            proof {
                reveal_strlit("r");
            }
            out.append("r");
        } else {
            proof {
                reveal_strlit("R");
            }
            out.append("R");
        },
        PieceType::Bishop => if color {
            proof {
                reveal_strlit("b");
            }
            out.append("b");
        } else {
            proof {
                reveal_strlit("B");
            }
            out.append("B");
        },
        PieceType::Queen => if color {
            proof {
                reveal_strlit("q");
            }
            out.append("q");
        } else {
            proof {
                reveal_strlit("Q");
            }
            out.append("Q");
        },
        PieceType::King => if color {
            proof {
                reveal_strlit("k");
            }
            out.append("k");
        } else {
            proof {
                reveal_strlit("K");
            }
            out.append("K");
        },
        PieceType::Knight => if color {
            proof {
                reveal_strlit("n");
            }
            out.append("n");
        } else {
            proof {
                reveal_strlit("N");
            }
            out.append("N");
        },
    }
    proof {
        assert(out@ =~= old(out)@.push(char_of_piece(color, kind)));
    }
}

fn push_square_char(out: &mut String, p: Piece)
    ensures
        final(out)@ == old(out)@.push(square_char(p)),
{
    match p {
        Piece::Empty { .. } => {
            proof {
                reveal_strlit(".");
            }
            out.append(".");
            proof {
                assert(out@ =~= old(out)@.push('.'));
            }
        },
        Piece::Occupied { color, kind } => {
            push_piece_char(out, color, kind);
        },
    }
}

impl BoardMap {
    /// Append the board-field text of one rank.
    fn push_rank(&self, out: &mut String, r: usize)
        requires
            r < 8,
        ensures
            final(out)@ == old(out)@ + rank_chars(self@, r as int, 0, 0),
    {
        let ghost v = self@;
        let mut f: usize = 0;
        let mut run: usize = 0;
        while f < 8
            invariant
                r < 8,
                f <= 8,
                run <= f,
                v == self@,
                old(out)@ + rank_chars(v, r as int, 0, 0) == out@ + rank_chars(
                    v,
                    r as int,
                    f as int,
                    run as int,
                ),
            decreases 8 - f,
        {
            let p = self.get_piece([r, f]);
            let ghost pre = out@;
            let ghost run0 = run as int;
            match p {
                Piece::Occupied { color, kind } => {
                    if run > 0 {
                        push_digit(out, run);
                    }
                    push_piece_char(out, color, kind);
                    run = 0;
                    proof {
                        let digits: Seq<char> = if run0 > 0 {
                            seq![digit_char(run0)]
                        } else {
                            Seq::empty()
                        };
                        assert(out@ =~= pre + digits + seq![char_of_piece(color, kind)]);
                        assert(rank_chars(v, r as int, f as int, run0) == digits + seq![
                            char_of_piece(color, kind),
                        ] + rank_chars(v, r as int, f + 1, 0));
                        assert(pre + rank_chars(v, r as int, f as int, run0) =~= out@ + rank_chars(
                            v,
                            r as int,
                            f + 1,
                            0,
                        ));
                    }
                },
                Piece::Empty { .. } => {
                    run = run + 1;
                },
            }
            f = f + 1;
        }
        if run > 0 {
            let ghost pre = out@;
            let ghost run0 = run as int;
            push_digit(out, run);
            proof {
                assert(rank_chars(v, r as int, 8, run0) == seq![digit_char(run0)]);
                assert(old(out)@ + rank_chars(v, r as int, 0, 0) =~= out@);
            }
        } else {
            proof {
                assert(rank_chars(v, r as int, 8, 0) == Seq::<char>::empty());
                assert(old(out)@ + rank_chars(v, r as int, 0, 0) =~= out@);
            }
        }
    }

    /// Serialize the position back to its description string: the board
    /// field and the active-color token, nothing more.
    pub fn get_fen(&self) -> (r: String)
        ensures
            r@ == fen_chars(self@),
    {
        let ghost v = self@;
        let mut out = String::new();
        self.push_rank(&mut out, 7);
        proof {
            assert(out@ =~= rank_chars(v, 7, 0, 0));
        }
        let mut rank: usize = 7;
        while rank > 0
            invariant
                v == self@,
                rank <= 7,
                placement_chars(v, 7) == out@ + (if rank > 0 {
                    seq!['/'] + placement_chars(v, rank - 1)
                } else {
                    Seq::<char>::empty()
                }),
            decreases rank,
        {
            let ghost pre = out@;
            proof {
                reveal_strlit("/");
            }
            out.append("/");
            proof {
                assert(out@ =~= pre.push('/'));
            }
            self.push_rank(&mut out, rank - 1);
            rank = rank - 1;
            proof {
                if rank > 0 {
                    assert(placement_chars(v, 7) =~= out@ + (seq!['/'] + placement_chars(
                        v,
                        rank - 1,
                    )));
                } else {
                    assert(placement_chars(v, 0) == rank_chars(v, 0, 0, 0));
                    assert(placement_chars(v, 7) =~= out@);
                }
            }
        }
        let ghost pre = out@;
        proof {
            reveal_strlit(" ");
            reveal_strlit("w");
            reveal_strlit("b");
        }
        out.append(" ");
        if self.get_active_color() {
            out.append("b");
        } else {
            out.append("w");
        }
        proof {
            assert(out@ =~= fen_chars(v));
        }
        out
    }

    /// Append one rendered rank: its eight square characters and a
    /// newline.
    fn push_render_rank(&self, out: &mut String, r: usize)
        requires
            r < 8,
        ensures
            final(out)@ == old(out)@ + render_rank(self@, r as int, 0),
    {
        let ghost v = self@;
        let mut f: usize = 0;
        while f < 8
            invariant
                r < 8,
                f <= 8,
                v == self@,
                old(out)@ + render_rank(v, r as int, 0) == out@ + render_rank(
                    v,
                    r as int,
                    f as int,
                ),
            decreases 8 - f,
        {
            let p = self.get_piece([r, f]);
            let ghost pre = out@;
            push_square_char(out, p);
            f = f + 1;
            proof {
                assert(pre + render_rank(v, r as int, f - 1) =~= out@ + render_rank(
                    v,
                    r as int,
                    f as int,
                ));
            }
        }
        let ghost pre = out@;
        proof {
            reveal_strlit("\n");
        }
        out.append("\n");
        proof {
            assert(render_rank(v, r as int, 8) == seq!['\n']);
            assert(old(out)@ + render_rank(v, r as int, 0) =~= out@);
        }
    }

    /// A human-readable dump: all eight ranks top down with rank labels,
    /// a file-letter footer, and whose turn it is.
    pub fn render(&self) -> (r: String)
        ensures
            r@ == render_chars(self@),
    {
        let ghost v = self@;
        let mut out = String::new();
        let mut done: usize = 0;
        while done < 8
            invariant
                v == self@,
                done <= 8,
                render_rows(v, 7) == out@ + render_rows(v, 7 - done),
            decreases 8 - done,
        {
            let rank = 7 - done;
            let ghost pre = out@;
            push_digit(&mut out, rank + 1);
            proof {
                reveal_strlit(" ");
            }
            out.append(" ");
            self.push_render_rank(&mut out, rank);
            done = done + 1;
            proof {
                assert(out@ =~= pre + seq![digit_char(rank + 1), ' '] + render_rank(
                    v,
                    rank as int,
                    0,
                ));
                assert(render_rows(v, rank as int) == seq![digit_char(rank + 1), ' '] + render_rank(
                    v,
                    rank as int,
                    0,
                ) + render_rows(v, rank - 1));
                assert(render_rows(v, 7) =~= out@ + render_rows(v, 7 - done));
            }
        }
        proof {
            assert(render_rows(v, -1) == Seq::<char>::empty());
        }
        out.append("  abcdefgh\n");
        if self.get_active_color() {
            out.append("black to move\n");
        } else {
            out.append("white to move\n");
        }
        proof {
            assert(out@ =~= render_chars(v));
        }
        out
    }

    /// Build a board from a position-description string: the board field
    /// from the start of the string, then the active-color token.
    ///
    /// The canonical starting position is
    /// `rnbqkbnr/pppppppp/8/8/8/8/PPPPPPPP/RNBQKBNR w KQkq - 0 1`.
    pub fn from_fen(fen: &str) -> (r: Self)
        ensures
            r@.squares == place_from(start_squares(), fen@, 0, 0),
            r@.active_color == active_from(fen@, token_end(fen@, 0)),
    {
        let ghost s = fen@;
        let n = fen.unicode_len();
        let mut board = BoardMap::default();
        proof {
            assert(board@.squares =~= start_squares());
        }
        let mut i: usize = 0;
        let mut index: usize = 0;
        while i < n && !is_space_char(fen.get_char(i))
            invariant
                s == fen@,
                n == s.len(),
                i <= n,
                index <= 64,
                board@.active_color == false,
                place_from(start_squares(), s, 0, 0) == place_from(
                    board@.squares,
                    s,
                    i as int,
                    index as int,
                ),
                token_end(s, 0) == token_end(s, i as int),
            decreases n - i,
        {
            let c = fen.get_char(i);
            let ghost pre = board@.squares;
            let ghost preidx = index as int;
            if is_digit_char(c) {
                let d = (c as u32 - 48) as usize;
                index = index + d;
                if index > 64 {
                    index = 64;
                }
            } else if c == '/' {
            } else {
                if index < 64 {
                    let on: [usize; 2] = [7 - index / 8, index % 8];
                    board.set_piece(on, piece_of_char_exec(c));
                    index = index + 1;
                }
            }
            proof {
                assert(place_step(pre, s[i as int], preidx) == (board@.squares, index as int));
            }
            i = i + 1;
        }
        proof {
            assert(token_end(s, 0) == i as int);
        }
        let ghost i0 = i as int;
        while i < n && is_space_char(fen.get_char(i))
            invariant
                s == fen@,
                n == s.len(),
                i <= n,
                active_from(s, i0) == active_from(s, i as int),
            decreases n - i,
        {
            i = i + 1;
        }
        let active = if i < n {
            fen.get_char(i) == 'b'
        } else {
            false
        };
        board.set_active_color(active);
        board
    }
}

} // verus!
