//! A verified chess engine: a bitboard position type with a rule-complete
//! legal-move generator (castling, en passant, promotion, check legality),
//! a material evaluator, an alpha-beta search, and a perfect-hash lookup
//! table for rook attacks.
pub mod bits;
pub mod board;
pub mod eval;
pub mod laws;
pub mod lookup_table;
pub mod moves;
pub mod search;

pub use crate::board::Color;
pub use crate::board::Outcome;
pub use crate::board::Piece;
pub use crate::board::Schach;
pub use crate::lookup_table::LookupTable;
