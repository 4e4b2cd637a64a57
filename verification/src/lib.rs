//! A small chess rules core: board representation, per-piece move
//! generation, legality filtering via self-check simulation, and turn
//! enforcement. Castling, en passant, promotion and mate detection are
//! deliberately out of scope.

pub mod piece;
pub mod board;
pub mod moves;
pub mod notation;

pub use board::BoardMap;
pub use board::BoardView;
pub use board::Position;
pub use piece::Direction;
pub use piece::Piece;
pub use piece::PieceType;
