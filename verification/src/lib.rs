//! Real-time coordination core for group voting rooms.
//!
//! Clients hold one duplex text connection each; a session handler decodes
//! inbound frames into typed events and a central lobby applies them to room
//! state: membership, a bounded history buffer, and a multi-phase voting
//! state machine. The lobby never performs I/O itself: every event handler
//! returns the exact list of text frames to deliver, so the surrounding
//! transport can fan them out.

pub mod codec;
pub mod codes;
pub mod extern_calls;
pub mod lobby;
pub mod messages;
pub mod util;
pub mod vote;
pub mod ws;
