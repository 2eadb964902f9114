//! Mesh, nodes and elements.

pub mod elements;
pub mod mesh;
pub mod node;
