//! A verified Base64 encoder.
//!
//! The library turns an arbitrary byte sequence into its textual Base64
//! representation, using the standard alphabet (`A`-`Z`, `a`-`z`, `0`-`9`,
//! `+`, `/`) with `=` padding up to a multiple of four output characters.
//! The encoder is total: every finite byte sequence, the empty one included,
//! has an encoding, and the result is a pure function of the input.

pub mod alphabet;
pub mod encode;
pub mod laws;

pub use encode::bytes_to_base64;
