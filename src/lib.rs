//! Bitboard core of a chess engine: square indexing, 64-bit occupancy masks,
//! sliding-piece ray tables, pawn push/capture tables and a board model.
pub mod bitboard;
pub mod square;
pub mod rays;
pub mod piece;
pub mod pawns;
pub mod board;
