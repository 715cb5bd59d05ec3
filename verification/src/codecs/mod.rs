//! Codec front-ends.

pub mod audio;
pub mod video;
pub mod gif;
pub mod h264;
pub mod image;
pub mod containers;
pub mod av1;
pub mod vp9;
pub mod lame;
