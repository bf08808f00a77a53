//! Networking code for sending and receiving framed bytes between processes.

pub mod bytes;
pub mod delivery;
pub mod framing;
pub mod handshake;
pub mod header;
pub mod inbox;
pub mod names;
pub mod receive;
pub mod send;
pub mod util;
