//! A programmable client core for a length-prefixed, stateful game-server
//! wire protocol (protocol version 47): framed packet I/O with optional zlib
//! compression, a Handshake -> Login -> Play state machine, and in-memory
//! mirrors of the server's world, scoreboard, team and inventory state.

pub mod bot;
pub mod entity;
pub mod error;
pub mod inventory;
pub mod scores;
pub mod stream;
pub mod varint;
pub mod world;
pub mod packets;
pub mod wire;
