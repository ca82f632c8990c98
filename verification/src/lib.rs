//! A launcher library: a parent process spawns a child worker and discovers,
//! through a line-oriented handshake file, the network port the child bound at
//! runtime.
//!
//! The verified core is everything that decides: the scanner that judges a
//! handshake record complete, extracts the `sock` port, and classifies
//! malformed records (`record`), and the launch state machine that turns a
//! sequence of spawn/read events into a resolved port or a distinct failure
//! (`launch`). The surrounding process and filesystem work (temporary file
//! allocation, spawning, the timed polling loop) is unverified glue that feeds
//! plain byte buffers and events into this core.

pub mod launch;
pub mod record;
