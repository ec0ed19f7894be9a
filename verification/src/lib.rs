//! The logic of a WebRTC selective forwarding unit: who is in which room, which tracks a
//! subscriber receives, how sessions renegotiate, what instances tell each other, and the
//! names under which room state is kept.

pub mod api;
pub mod api_error;
pub mod assoc;
pub mod command;
pub mod config;
pub mod keys;
pub mod middleware;
pub mod rooms;
pub mod signaling;
pub mod text;
pub mod transceivers;
pub mod util;
pub mod varint;
pub mod validation;
