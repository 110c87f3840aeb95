//! UCI process boundary.
//!
//! This is the only module allowed to know about raw UCI text. It parses
//! lines into typed commands and turns typed responses into lines. No UCI
//! strings may leak below this module.

pub mod command;
pub mod command_laws;
pub mod laws;
pub mod output;
pub mod output_laws;
pub mod reply_laws;
pub mod run_laws;
pub mod session;

pub use command::{GoCommand, PositionCommand, PositionCommandError, UciCommand, UciMove};
pub use output::format_uci_move;
pub use session::{Event, SearchEvent, Session, ENGINE_AUTHOR, ENGINE_NAME};
