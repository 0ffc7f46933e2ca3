//! Detection of FIDO/U2F security keys that wait for a touch.
//!
//! The library holds the protocol logic: the framing of HID reports into
//! packets, the reassembly of messages, the decoding of commands, the
//! debouncing of keep-alive signals into touch events, the decisions of the
//! per-device reader and of the device monitor, and what the socket and
//! notification outputs show.
pub mod packet;
pub mod command;
pub mod message;
pub mod touch;
pub mod device;
pub mod monitor;
pub mod socket;
pub mod config;
pub mod notify;
