//! VCD 3.0 asset formats: pages, images, and the start-up class file.

pub mod ybm;
pub mod chm;
pub mod cls;
