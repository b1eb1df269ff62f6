//! A verified core for a shared sound board: one audio output device,
//! many concurrent clients toggling playback of stored clips.
//!
//! The crate models the three coordinating pieces of such a server:
//! a FIFO command queue feeding a single playback coordinator, a shared
//! registry of believed play/stop state per clip, and a per-session
//! protocol handler that turns inbound frames into commands and replies.

pub mod commands;
pub mod coordinator;
pub mod files;
pub mod json;
pub mod keymap;
pub mod laws;
pub mod queue;
pub mod registry;
pub mod session;
pub mod stringops;
