//! A lenient UTF-8 stream decoder and the character classifier it feeds.
//!
//! The decoder never rejects its input: a malformed unit is reported as data,
//! with the raw bytes that were consumed for it, and decoding goes on with the
//! next byte.

pub mod display;
pub mod iter;
pub mod stream;
pub mod utf8;
