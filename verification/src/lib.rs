//! A single-threaded, non-blocking network responder, modelled as verified
//! state machines: a detector for the fixed request terminator, a
//! per-connection phase machine advanced by one bounded unit of I/O at a
//! time, and a scheduler that drives every live connection once per
//! iteration and removes finished ones in descending index order. The
//! socket I/O itself happens outside the library and reaches it as plain
//! event values.

pub mod connection;
pub mod detector;
pub mod laws;
pub mod response;
pub mod scheduler;
