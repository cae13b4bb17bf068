//! Control logic of an agent that rewrites TCP timestamps on selected ports:
//! configuration handling, port tracking, refresh scheduling and per-packet
//! decisions. Network, process and packet I/O live outside this crate.
pub mod config;
pub mod agent;
pub mod session;
pub mod cli;
pub mod instance;
