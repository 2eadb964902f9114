//! Static stress analysis step.
use crate::solver::increment::{IncrementData, IncrementModel};
use crate::solver::solvers::SolverType;
use crate::solver::step::boundary_conds::{
    bc_views, load_views, BoundaryCondition, Load, NodalModel,
};
use vstd::prelude::*;

verus! {

/// Configuration of a static analysis step.
#[derive(Debug)]
pub struct StaticStep {
    /// The linear solver strategy to use.
    pub solver: SolverType,
    /// Time incrementation settings.
    pub increment_data: IncrementData,
    /// Concentrated loads applied during this step.
    pub loads: Vec<Load>,
    /// Boundary conditions applied during this step.
    pub bcs: Vec<BoundaryCondition>,
    /// If true, geometric non-linearity is considered.
    pub nlgeom: bool,
}

/// A static step as plain values.
pub struct StepModel {
    pub solver: SolverType,
    pub increment: IncrementModel,
    pub loads: Seq<NodalModel>,
    pub bcs: Seq<NodalModel>,
    pub nlgeom: bool,
}

impl View for StaticStep {
    type V = StepModel;

    open spec fn view(&self) -> StepModel {
        StepModel {
            solver: self.solver,
            increment: self.increment_data@,
            loads: load_views(self.loads@),
            bcs: bc_views(self.bcs@),
            nlgeom: self.nlgeom,
        }
    }
}

} // verus!
