//! Verified parsers and state machines for Video CD 2.0 / 3.0 discs.

pub mod bytes;
pub mod text;
pub mod vcd;
pub mod assets;
pub mod interactive;
pub mod audio;
pub mod ui;
pub mod video;
pub mod updater;
pub mod i18n;
