//! Somfy RTS remote-control encoder.
//!
//! Builds the 7-byte RTS command frame, applies the chained byte-XOR
//! obfuscation, Manchester-encodes the frame into a timed pulse train for
//! on-off-keyed sub-GHz transmission, and consolidates adjacent equal-level
//! pulses into the final sequence handed to a radio driver.

pub mod buffer;
mod encode;
pub mod protocol;
pub mod pulses;
