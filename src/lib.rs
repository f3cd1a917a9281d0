//! MAVLink wire framing, checksums and per-connection protocol state.
//!
//! The frame codec and the decisions of each transport (what to send, which
//! bytes to drop, which frame to hand out) are verified here; the sockets and
//! the serial device are driven by the application around this library.
pub mod crc;
pub mod frame;
pub mod codec;
pub mod roundtrip;
pub mod receive;
pub mod sequence;
pub mod address;
pub mod serial_link;
pub mod custom_entries;
