//! Mesh data of the line-oriented reader.

pub mod element_set;
pub mod elements;
