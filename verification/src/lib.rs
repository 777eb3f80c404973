//! The command engine of a small interactive shell.
//!
//! A line of input is classified, split into pipeline stages, parsed into
//! words and redirections, and turned into the exact sequence of requests
//! that a driver has to carry out against the operating system. The crate
//! itself creates no process and touches no descriptor.

pub mod chars;
pub mod dispatch;
pub mod launch;
pub mod orchestrate;
pub mod parse;
pub mod plan;
pub mod text;
