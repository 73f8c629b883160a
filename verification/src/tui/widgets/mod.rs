//! Text of the hex and tree widgets.

pub mod hex;
pub mod tree;
