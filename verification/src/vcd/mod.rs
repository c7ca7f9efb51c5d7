//! Video CD system files, Playback Control, and disc detection.

pub mod lot;
pub mod psd;
pub mod pbc;
pub mod info;
pub mod entries;
pub mod detector;
pub mod segment;
pub mod track;
