//! Blurring passes' configurations.

pub mod box_blur;
