//! Command-line arguments of the solver.
use crate::solver::io::OutputFormat;
use vstd::prelude::*;

verus! {

/// Default number of threads used for parallel computations.
pub const DEFAULT_THREADS: usize = 4;

/// Command-line arguments for the `FerriX` solver.
#[derive(Debug)]
pub struct Args {
    /// The jobname. `FerriX` will look for `<jobname>.inp`.
    pub jobname: String,
    /// The number of threads to use for the analysis. 0 will use system CPU count.
    pub num_threads: usize,
    /// The format in which results will be saved.
    pub output_format: OutputFormat,
    /// Output path to write the preprocessed .inp file into. Useful for debugging
    pub preprocessed_output: Option<String>,
}

} // verus!
