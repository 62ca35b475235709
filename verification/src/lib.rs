//! Verified core of a multi-port serial line recorder.
//!
//! Several serial ports are read at once; every line that arrives is tagged
//! with the port it came from, travels through one fan-in channel, and is
//! written as a timestamped record to a single output store. This crate holds
//! the rules of that pipeline: how the command line is read, how bytes become
//! lines, how lines become records, and how the pipeline starts, drains and
//! stops. Threads, devices and files are left to the program that uses it.

pub mod clock;
pub mod numeral;
pub mod record;
pub mod channel;
pub mod port;
pub mod error;
pub mod reader;
pub mod model;
pub mod pipeline;
pub mod config;
