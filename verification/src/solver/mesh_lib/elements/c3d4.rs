//! C3D4 element (Linear tetrahedron).
use crate::solver::ids::{ElementId, NodeId};
use vstd::prelude::*;

verus! {

/// Linear tetrahedron (C3D4).
#[derive(Debug, Clone, Copy)]
pub struct C3D4 {
    pub id: ElementId,
    pub nodes: [NodeId; 4],
}

impl C3D4 {
    /// Returns the unique ID of the element.
    pub fn id(&self) -> (res: ElementId)
        ensures
            res == self.id,
    {
        self.id
    }

    /// Returns the node IDs that form the element's connectivity.
    pub fn nodes(&self) -> (res: &[NodeId])
        ensures
            res@ == self.nodes@,
    {
        self.nodes.as_slice()
    }

    /// Returns the number of nodes in this element.
    pub fn num_nodes(&self) -> (res: usize)
        ensures
            res == 4,
    {
        4
    }

    /// Returns the VTK cell type code for this element (VTK_TETRA).
    pub fn vtk_cell_type(&self) -> (res: u8)
        ensures
            res == 10,
    {
        10
    }
}

} // verus!
