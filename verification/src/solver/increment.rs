//! Time incrementation settings of a simulation step.
use vstd::prelude::*;

verus! {

/// Configuration for time incrementation in a simulation step. Times are
/// kept as the literals of the input deck.
#[derive(Debug)]
pub struct IncrementData {
    /// First time increment.
    pub initial_time_increment: String,
    /// Total duration of the simulation step.
    pub time_period: String,
    /// Minimum allowed time increment.
    pub min_time_increment: String,
    /// Maximum allowed time increment.
    pub max_time_increment: String,
    /// Maximum number of increments allowed before the simulation is aborted.
    pub max_iterations: usize,
}

/// Increment settings as plain values.
pub struct IncrementModel {
    pub initial_time_increment: Seq<char>,
    pub time_period: Seq<char>,
    pub min_time_increment: Seq<char>,
    pub max_time_increment: Seq<char>,
    pub max_iterations: usize,
}

impl View for IncrementData {
    type V = IncrementModel;

    open spec fn view(&self) -> IncrementModel {
        IncrementModel {
            initial_time_increment: self.initial_time_increment@,
            time_period: self.time_period@,
            min_time_increment: self.min_time_increment@,
            max_time_increment: self.max_time_increment@,
            max_iterations: self.max_iterations,
        }
    }
}

/// The default settings: one increment of `1` over a period of `1`, minimum
/// `1e-5`, at most 10 000 increments.
pub open spec fn default_increment() -> IncrementModel {
    IncrementModel {
        initial_time_increment: "1"@,
        time_period: "1"@,
        min_time_increment: "1e-5"@,
        max_time_increment: "1"@,
        max_iterations: 10000,
    }
}

impl Default for IncrementData {
    fn default() -> (res: Self)
        ensures
            res@ == default_increment(),
    {
        IncrementData {
            initial_time_increment: String::from_str("1"),
            time_period: String::from_str("1"),
            min_time_increment: String::from_str("1e-5"),
            max_time_increment: String::from_str("1"),
            max_iterations: 10000,
        }
    }
}

impl Clone for IncrementData {
    fn clone(&self) -> (res: Self)
        ensures
            res@ == self@,
    {
        IncrementData {
            initial_time_increment: self.initial_time_increment.clone(),
            time_period: self.time_period.clone(),
            min_time_increment: self.min_time_increment.clone(),
            max_time_increment: self.max_time_increment.clone(),
            max_iterations: self.max_iterations,
        }
    }
}

} // verus!
