//! Output formats of results.
use vstd::prelude::*;

pub mod frd;

verus! {

/// Supported formats for exporting simulation results.
#[derive(Debug, Clone, Copy, PartialEq, Eq, Structural)]
pub enum OutputFormat {
    /// Visualization Toolkit (VTK) format, compatible with `ParaView`.
    Vtk,
}

impl OutputFormat {
    /// The format's name on the command line (`VTK`).
    pub fn name(&self) -> (res: &str)
        ensures
            res@ == "VTK"@,
    {
        match self {
            OutputFormat::Vtk => "VTK",
        }
    }
}

} // verus!
