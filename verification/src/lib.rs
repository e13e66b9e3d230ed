//! HDLC-style framing: CRC-16, byte stuffing, frames and the sliding window
//! of a Go-Back-N / selective-reject protocol.

pub mod byte_stuffing;
pub mod crc;
pub mod frame;
pub mod shared;
pub mod window;
pub mod frame_handlers;
pub mod io;
pub mod client;
pub mod server;
