//! The host side of a telemetry link: what is measured on the host, what is known of the weather
//! outside, the lines that are sent to the board, and the commands that come back.
//!
//! The library decides and computes on texts, bytes and integers. Whoever uses it reads the files,
//! runs the programs, holds the connections, and does what takes floating point.

pub mod command;
pub mod config;
pub mod cpu;
pub mod fetch;
pub mod gpu;
pub mod invocation;
pub mod json;
pub mod link;
pub mod memory;
pub mod message;
pub mod number;
pub mod text;
pub mod utf8;
pub mod weather;
