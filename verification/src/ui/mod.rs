//! Display state that does not depend on a windowing toolkit.

pub mod osd;
pub mod app;
