//! A relay hub for chat and voice-room signalling.
//!
//! The hub keeps the set of connected clients and the voice room that each of
//! them is in. Every operation returns the messages that are to be sent, each
//! with its recipient; sending them is left to the caller.

pub mod wire;
pub mod hub;
pub mod router;
pub mod laws;
pub mod http;
