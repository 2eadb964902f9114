//! C3D6 element (Linear wedge).
use crate::solver::ids::{ElementId, NodeId};
use vstd::prelude::*;

verus! {

/// Linear wedge (C3D6).
#[derive(Debug, Clone, Copy)]
pub struct C3D6 {
    pub id: ElementId,
    pub nodes: [NodeId; 6],
}

impl C3D6 {
    /// Returns the unique ID of the element.
    pub fn id(&self) -> (res: ElementId)
        ensures
            res == self.id,
    {
        self.id
    }

    /// Returns the node IDs that form the element's connectivity.
    pub fn nodes(&self) -> (res: &[NodeId])
        ensures
            res@ == self.nodes@,
    {
        self.nodes.as_slice()
    }

    /// Returns the number of nodes in this element.
    pub fn num_nodes(&self) -> (res: usize)
        ensures
            res == 6,
    {
        6
    }

    /// Returns the VTK cell type code for this element (VTK_WEDGE).
    pub fn vtk_cell_type(&self) -> (res: u8)
        ensures
            res == 13,
    {
        13
    }
}

} // verus!
