//! Drives a running registry-editor window from the outside: a small command
//! language is parsed into selector-scoped batches of keyboard and control
//! commands, a locator picks the target window out of the candidates the
//! operating system reports, a dispatch planner turns each command into the
//! exact ordered list of low-level messages to deliver, and a navigator state
//! machine sequences the whole journey to a destination tree path.
//!
//! Everything that touches the operating system itself (enumeration, message
//! delivery, process launch) lives outside this crate; the logic here works on
//! the plain values those calls produce and is verified.

pub mod dispatch;
pub mod error;
pub mod locator;
pub mod msg;
pub mod navigator;
pub mod parser;
pub mod serialize;
pub mod style;
