//! Piece values and directional geometry: colors, piece kinds, the eight
//! compass directions with their rank/file deltas, knight offsets, and the
//! distance from a square to the board edge along a direction.

use vstd::prelude::*;

verus! {

/// The six piece kinds.
#[derive(Clone, Copy, PartialEq, Eq, Structural, Debug)]
pub enum PieceType {
    Pawn,
    Knight,
    Bishop,
    Rook,
    Queen,
    King,
}

/// One square's content. An empty square carries a cosmetic shade bit
/// (the checkerboard pattern); a piece carries its color and kind.
/// Color is `false` for white, `true` for black.
#[derive(Clone, Copy, PartialEq, Eq, Structural, Debug)]
pub enum Piece {
    Empty { dark: bool },
    Occupied { color: bool, kind: PieceType },
}

impl Piece {
    /// True iff the value denotes an occupied square.
    pub open spec fn spec_is_piece(self) -> bool {
        self is Occupied
    }

    /// The color bit: for a piece its side, for an empty square its shade.
    pub open spec fn spec_color(self) -> bool {
        match self {
            Piece::Empty { dark } => dark,
            Piece::Occupied { color, .. } => color,
        }
    }

    /// The decoded kind, `None` for an empty square.
    pub open spec fn spec_kind(self) -> Option<PieceType> {
        match self {
            Piece::Empty { .. } => None,
            Piece::Occupied { kind, .. } => Some(kind),
        }
    }

    pub fn is_piece(&self) -> (r: bool)
        ensures
            r == self.spec_is_piece(),
    {
        match self {
            Piece::Occupied { .. } => true,
            Piece::Empty { .. } => false,
        }
    }

    pub fn get_color(&self) -> (r: bool)
        ensures
            r == self.spec_color(),
    {
        match self {
            Piece::Empty { dark } => *dark,
            Piece::Occupied { color, .. } => *color,
        }
    }

    pub fn is_white(&self) -> (r: bool)
        ensures
            r == (self.spec_is_piece() && !self.spec_color()),
    {
        match self {
            Piece::Occupied { color, .. } => !*color,
            Piece::Empty { .. } => false,
        }
    }

    pub fn is_black(&self) -> (r: bool)
        ensures
            r == (self.spec_is_piece() && self.spec_color()),
    {
        match self {
            Piece::Occupied { color, .. } => *color,
            Piece::Empty { .. } => false,
        }
    }

    pub fn get_type(&self) -> (r: Option<PieceType>)
        ensures
            r == self.spec_kind(),
    {
        match self {
            Piece::Empty { .. } => None,
            Piece::Occupied { kind, .. } => Some(*kind),
        }
    }
}

/// The eight compass directions. Indices 0..4 are the rook-like
/// directions, 4..8 the bishop-like diagonals; queens use all eight.
#[derive(Clone, Copy, PartialEq, Eq, Structural, Debug)]
pub enum Direction {
    North,
    South,
    West,
    East,
    NorthWest,
    SouthEast,
    NorthEast,
    SouthWest,
}

pub open spec fn dir_of_index(i: int) -> Direction {
    if i == 0 {
        Direction::North
    } else if i == 1 {
        Direction::South
    } else if i == 2 {
        Direction::West
    } else if i == 3 {
        Direction::East
    } else if i == 4 {
        Direction::NorthWest
    } else if i == 5 {
        Direction::SouthEast
    } else if i == 6 {
        Direction::NorthEast
    } else {
        Direction::SouthWest
    }
}

/// Rank delta of one step along a direction (ranks grow northward).
pub open spec fn delta_rank(d: Direction) -> int {
    match d {
        Direction::North => 1,
        Direction::South => -1,
        Direction::West => 0,
        Direction::East => 0,
        Direction::NorthWest => 1,
        Direction::SouthEast => -1,
        Direction::NorthEast => 1,
        Direction::SouthWest => -1,
    }
}

/// File delta of one step along a direction (files grow eastward).
pub open spec fn delta_file(d: Direction) -> int {
    match d {
        Direction::North => 0,
        Direction::South => 0,
        Direction::West => -1,
        Direction::East => 1,
        Direction::NorthWest => -1,
        Direction::SouthEast => 1,
        Direction::NorthEast => 1,
        Direction::SouthWest => -1,
    }
}

pub fn direction_of_index(i: usize) -> (d: Direction)
    requires
        i < 8,
    ensures
        d == dir_of_index(i as int),
{
    if i == 0 {
        Direction::North
    } else if i == 1 {
        Direction::South
    } else if i == 2 {
        Direction::West
    } else if i == 3 {
        Direction::East
    } else if i == 4 {
        Direction::NorthWest
    } else if i == 5 {
        Direction::SouthEast
    } else if i == 6 {
        Direction::NorthEast
    } else {
        Direction::SouthWest
    }
}

pub fn dir_deltas(d: Direction) -> (r: (i64, i64))
    ensures
        r.0 as int == delta_rank(d),
        r.1 as int == delta_file(d),
{
    match d {
        Direction::North => (1, 0),
        Direction::South => (-1, 0),
        Direction::West => (0, -1),
        Direction::East => (0, 1),
        Direction::NorthWest => (1, -1),
        Direction::SouthEast => (-1, 1),
        Direction::NorthEast => (1, 1),
        Direction::SouthWest => (-1, -1),
    }
}

/// The knight's eight (rank, file) jump offsets.
pub open spec fn knight_offset(i: int) -> (int, int) {
    if i == 0 {
        (1, 2)
    } else if i == 1 {
        (2, 1)
    } else if i == 2 {
        (2, -1)
    } else if i == 3 {
        (1, -2)
    } else if i == 4 {
        (-1, -2)
    } else if i == 5 {
        (-2, -1)
    } else if i == 6 {
        (-2, 1)
    } else {
        (-1, 2)
    }
}

pub fn knight_offset_at(i: usize) -> (r: (i64, i64))
    requires
        i < 8,
    ensures
        r.0 as int == knight_offset(i as int).0,
        r.1 as int == knight_offset(i as int).1,
{
    if i == 0 {
        (1, 2)
    } else if i == 1 {
        (2, 1)
    } else if i == 2 {
        (2, -1)
    } else if i == 3 {
        (1, -2)
    } else if i == 4 {
        (-1, -2)
    } else if i == 5 {
        (-2, -1)
    } else if i == 6 {
        (-2, 1)
    } else {
        (-1, 2)
    }
}

/// A rank/file pair lies on the board.
pub open spec fn in_board(r: int, f: int) -> bool {
    0 <= r < 8 && 0 <= f < 8
}

/// How many squares lie between (r, f) and the board edge along d:
/// the minimum of the relevant rank and file distances.
pub open spec fn spec_len_to_edge(r: int, f: int, d: Direction) -> int {
    let north = 7 - r;
    let south = r;
    let west = f;
    let east = 7 - f;
    match d {
        Direction::North => north,
        Direction::South => south,
        Direction::West => west,
        Direction::East => east,
        Direction::NorthWest => if north < west { north } else { west },
        Direction::SouthEast => if south < east { south } else { east },
        Direction::NorthEast => if north < east { north } else { east },
        Direction::SouthWest => if south < west { south } else { west },
    }
}

/// Stepping at most `len_to_edge` squares along a direction never
/// leaves the board.
pub proof fn lemma_step_in_board(r: int, f: int, d: Direction, n: int)
    requires
        in_board(r, f),
        0 <= n <= spec_len_to_edge(r, f, d),
    ensures
        in_board(r + n * delta_rank(d), f + n * delta_file(d)),
{
}

} // verus!
