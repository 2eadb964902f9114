//! Finite element types.

pub mod c3d10;
pub mod c3d20;
pub mod c3d4;
pub mod c3d6;
pub mod element;
