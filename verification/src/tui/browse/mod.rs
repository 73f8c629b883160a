//! Views of a loaded image.

pub mod fs_detect;
pub mod image11;
pub mod image_old;
mod kind;

pub use kind::ImageKind;
