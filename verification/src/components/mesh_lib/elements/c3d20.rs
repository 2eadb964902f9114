use vstd::prelude::*;

verus! {

/// The 20-node quadratic brick.
pub struct C3D20;

impl C3D20 {
    /// The element's name in input files.
    pub fn name() -> (res: String)
        ensures
            res@ == "C3D20"@,
    {
        String::from_str("C3D20")
    }
}

} // verus!
