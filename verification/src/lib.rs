//! Collaborative editing over peer-to-peer channels: the rules of signaling,
//! message framing, liveness, document edits and scripted sessions.

pub mod assoc;
pub mod clock;
pub mod harness;
pub mod message;
pub mod number;
pub mod signaling;
pub mod simple_op;
pub mod split;
pub mod ssh_channel;
pub mod text;
pub mod transcript;
pub mod transcript_runner;
pub mod types;
pub mod webchannel;
pub mod websocket_receptor;
