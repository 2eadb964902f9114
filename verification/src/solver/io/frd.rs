//! The CalculiX result format.
use vstd::prelude::*;

verus! {

/// Writer of `.frd` result files.
#[derive(Debug, Clone, Copy)]
pub struct FrdWriter;

} // verus!
