//! Network throughput testing over the iPerf3 wire protocol: the verified
//! core of a client and a server.
//!
//! The modules hold the wire formats, the control-channel state machines,
//! the byte and packet accounting, the command-line rules and the
//! authentication rules. Sockets, threads, files and the terminal belong to
//! the program around this library.

pub mod cli;
pub mod client;
pub mod common;
pub mod laws;
pub mod report;
pub mod script;
pub mod server;
