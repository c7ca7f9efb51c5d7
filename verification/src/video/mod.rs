//! MPEG program streams on Video CDs.

pub mod cdxa;
pub mod player;
