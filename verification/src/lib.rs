//! A chess engine's verified core.

pub mod answer_laws;
pub mod book;
pub mod chess;
pub mod diagnostics;
pub mod engine;
pub mod engine_laws;
pub mod eval;
pub mod search;
pub mod tablebase;
pub mod tablebase_laws;
pub mod text;
pub mod text_laws;
pub mod time;
pub mod uci;
