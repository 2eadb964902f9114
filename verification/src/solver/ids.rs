//! Type-safe identifiers for FEA entities.
//!
//! Wrapper types for IDs (nodes, elements, loads, boundary conditions) keep
//! different kinds of identifiers apart at compile time.
use vstd::prelude::*;

verus! {

/// A unique identifier for a node in the mesh, as given in the input file.
#[derive(Debug, Clone, Copy, PartialEq, Eq, Hash, Structural)]
pub struct NodeId(pub usize);

/// A unique identifier for an element in the mesh, as given in the input file.
#[derive(Debug, Clone, Copy, PartialEq, Eq, Hash, Structural)]
pub struct ElementId(pub usize);

/// A unique identifier for a load applied to the model.
#[derive(Debug, Clone, Copy, PartialEq, Eq, Hash, Structural)]
pub struct LoadId(pub usize);

/// A unique identifier for a boundary condition applied to the model.
#[derive(Debug, Clone, Copy, PartialEq, Eq, Hash, Structural)]
pub struct BoundaryConditionId(pub usize);

} // verus!
