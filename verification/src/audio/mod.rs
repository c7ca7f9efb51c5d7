//! Audio channel handling.

pub mod channel;
