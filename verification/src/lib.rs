//! A communication layer for distributed dataflow: framing of messages, set-up of the connections
//! between processes, and the configuration of both.

pub mod allocator;
pub mod initialize;
pub mod networking;
pub mod options;
pub mod text;
