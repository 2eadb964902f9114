//! Linear system solver choice.
use vstd::prelude::*;

verus! {

/// Strategies for solving the global system of equations.
#[derive(Debug, Clone, Copy, PartialEq, Eq, Structural)]
pub enum SolverType {
    /// A direct solver using sparse Cholesky factorization.
    Direct,
    /// An iterative solver using the Preconditioned Conjugate Gradient (PCG) method.
    Iterative,
    /// The default solver strategy for the current analysis type.
    Default,
}

} // verus!
