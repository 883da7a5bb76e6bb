//! Layout of labelled bracket diagrams: a named root joined by dashed lines
//! to ordered levels of labels, every row filled to one common width.

pub mod error;
pub mod laws;
pub mod layout;
pub mod levels;
pub mod number;
pub mod render;
