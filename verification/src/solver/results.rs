//! Kinds of result fields.
use vstd::prelude::*;

verus! {

/// Types of physical fields that can be stored in results.
#[derive(Debug, Clone, Copy, PartialEq, Eq, Hash, Structural)]
pub enum FieldType {
    /// Nodal displacements (U).
    Displacement,
    /// Nodal temperatures (NT).
    Temperature,
    /// Element stresses (S).
    Stress,
    /// Element strains (E).
    Strain,
}

} // verus!
