//! Analysis steps and what they apply.

pub mod boundary_conds;
pub mod static_step;
pub mod steps;
