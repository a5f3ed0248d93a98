//! Verified core of a multi-client real-time canvas server.
//!
//! The crate provides the binary wire protocol (encode/decode with a proved
//! round trip), a bit-packed cellular-automaton engine with a proved step
//! rule, a bounded-replay broadcast hub model, the command dispatcher that
//! maps decoded messages to effects, and the per-connection decision logic.
//! Socket I/O, task scheduling and the procedural painting generator live
//! outside the verified library.

pub mod codec;
pub mod color;
pub mod constants;
pub mod dispatch;
pub mod grid;
pub mod hub;
pub mod message_types;
pub mod painting;
pub mod rng;
pub mod session;
pub mod text;
