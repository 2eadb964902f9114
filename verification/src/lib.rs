//! Input processing for a finite element solver that reads CalculiX/Abaqus
//! style `.inp` decks: normalisation of the text, recognition of keyword
//! cards and their arguments, and the model (mesh, sets, materials, steps,
//! loads, boundary conditions, amplitudes) that a deck describes.

pub mod cli;
pub mod components;
pub mod name_map;
pub mod solver;
pub mod text;
