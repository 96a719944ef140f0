//! Ruggine: the decision logic of an invitation-based group chat, with its
//! wire messages, the server's state machine and the two clients' state.

pub mod message;
pub mod text;
pub mod table;
pub mod server;
pub mod client;
pub mod gui;
pub mod protocol;
