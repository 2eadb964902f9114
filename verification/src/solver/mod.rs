//! Reading of `.inp` decks into a finite element model.

pub mod deck;
pub mod error;
pub mod ids;
pub mod inp;
pub mod io;
pub mod laws;
pub mod mesh_lib;
pub mod parser;
pub mod parsing;
pub mod results;
pub mod section;
pub mod solvers;
pub mod amplitude;
pub mod increment;
pub mod material;
pub mod step;
pub mod project;
