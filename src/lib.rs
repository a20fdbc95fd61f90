//! A chess position (piece placement, side to move, castling rights,
//! en-passant target and move clocks) with a decoder for Forsyth–Edwards
//! Notation and a diagnostic board renderer.

pub mod castling;
pub mod error;
pub mod fen;
pub mod fields;
pub mod game;
pub mod laws;
pub mod piece;
pub mod square;
pub mod start;

pub use castling::CastlingRights;
pub use error::ParseError;
pub use game::Game;
pub use piece::{Color, Piece, PieceType, Square};
pub use square::{bit_scan, bit_to_position, index_to_position, position_to_bit};
