//! Abaqus-style input file (.inp) handling.
use crate::solver::parser::{preprocess_inp, preprocessed};
use vstd::prelude::*;

verus! {

/// Represents a preprocessed input file.
#[derive(Debug, Clone, PartialEq, Eq, PartialOrd, Ord)]
pub struct InpFile(pub String);

impl InpFile {
    /// Creates a new `InpFile` by preprocessing the raw input string.
    pub fn new(input: &str) -> (res: Self)
        ensures
            res.0@ == preprocessed(input@),
    {
        InpFile(preprocess_inp(input))
    }
}

impl Default for InpFile {
    fn default() -> (res: Self)
        ensures
            res.0@ == Seq::<char>::empty(),
    {
        InpFile(String::new())
    }
}

} // verus!
