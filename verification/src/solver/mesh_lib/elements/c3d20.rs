//! C3D20 element (Quadratic hexahedron).
use crate::solver::ids::{ElementId, NodeId};
use vstd::prelude::*;

verus! {

/// Quadratic hexahedron (C3D20).
#[derive(Debug, Clone, Copy)]
pub struct C3D20 {
    pub id: ElementId,
    pub nodes: [NodeId; 20],
}

impl C3D20 {
    /// Returns the unique ID of the element.
    pub fn id(&self) -> (res: ElementId)
        ensures
            res == self.id,
    {
        self.id
    }

    /// Returns the node IDs that form the element's connectivity.
    pub fn nodes(&self) -> (res: &[NodeId])
        ensures
            res@ == self.nodes@,
    {
        self.nodes.as_slice()
    }

    /// Returns the number of nodes in this element.
    pub fn num_nodes(&self) -> (res: usize)
        ensures
            res == 20,
    {
        20
    }

    /// Returns the VTK cell type code for this element (VTK_QUADRATIC_HEXAHEDRON).
    pub fn vtk_cell_type(&self) -> (res: u8)
        ensures
            res == 25,
    {
        25
    }
}

} // verus!
