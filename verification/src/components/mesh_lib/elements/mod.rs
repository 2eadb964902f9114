//! Element definitions of the line-oriented reader.

pub mod c3d20;
pub mod element;
