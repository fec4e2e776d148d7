//! Capture the Flag: the verified core of a multiplayer arena game.
//!
//! The library holds the binary wire protocol (codes, byte writer and
//! reader, messages and framing), the client's view of a session, the
//! server's rules for joins, countdown, flag interactions and victory, the
//! client's table of discovered servers, the bookkeeping of the network
//! logger, and the grid game of the line-based text protocol.

pub mod types;
pub mod text;
pub mod codec;
pub mod protocol;
pub mod frame;
pub mod client;
pub mod server;
pub mod logger;
pub mod grid;
pub mod discovery;
