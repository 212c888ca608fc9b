//! A line-oriented command server core: a per-connection session that
//! interprets the textual commands `START_RECORDING` and `STOP_RECORDING`
//! and coordinates an audio recorder and a transcriber behind capability
//! traits. The surrounding program owns the listening socket and the
//! read/write loop; this crate owns the protocol and the state machine.

pub mod capabilities;
pub mod protocol;
pub mod session;
