//! The kinds of analysis steps.
use crate::solver::step::static_step::{StaticStep, StepModel};
use vstd::prelude::*;

verus! {

/// An analysis step.
#[derive(Debug)]
pub enum Step {
    StaticStep(StaticStep),
}

impl View for Step {
    type V = StepModel;

    open spec fn view(&self) -> StepModel {
        match self {
            Step::StaticStep(s) => s@,
        }
    }
}

pub open spec fn step_views(v: Seq<Step>) -> Seq<StepModel> {
    v.map_values(|s: Step| s@)
}

} // verus!
