//! Chess-domain types and rules.

pub mod attacks;
pub mod castling;
pub mod clocks;
pub mod distinct_laws;
pub mod fen;
pub mod fen_field_laws;
pub mod fen_laws;
pub mod hash_laws;
pub mod legality;
pub mod make_laws;
pub mod make_unmake;
pub mod movegen;
pub mod movement_laws;
pub mod moves;
pub mod perft;
pub mod piece;
pub mod position;
pub mod rule_laws;
pub mod see;
pub mod square;
pub mod zobrist;

pub use castling::CastlingRights;
pub use fen::FenError;
pub use make_unmake::{NullUndo, Undo};
pub use moves::{Move, MoveFlag};
pub use piece::{Color, Piece, PieceKind};
pub use position::Position;
pub use square::{ParseSquareError, Square};
