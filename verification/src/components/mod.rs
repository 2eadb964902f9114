//! An earlier, line-oriented reader of `.inp` decks.

pub mod mesh_lib;
pub mod project;
