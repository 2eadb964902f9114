//! Errors of the solver library.
use crate::solver::ids::{ElementId, NodeId};
use vstd::prelude::*;

verus! {

/// Custom error type for all `FerriX` operations.
#[derive(Debug, Clone)]
pub enum FerrixError {
    /// Errors occurring during file input/output at a specific path.
    Io { path: String, source: String },
    /// General IO errors not tied to a specific path.
    GenericIo(String),
    /// Errors encountered while parsing input files (e.g., .inp files).
    ParseError { line: usize, message: String },
    /// Valid keywords that are not supported.
    UnsupportedKeyword { line: usize, keyword: String },
    /// An unrecognized solver algorithm was requested.
    UnknownSolver(String),
    /// A requested node is missing from the mesh.
    NodeNotFound(NodeId),
    /// A requested element is missing from the mesh.
    ElementNotFound(ElementId),
    /// A referenced material is undefined.
    MaterialNotFound(String),
    /// A referenced element set is missing.
    ElsetNotFound(String),
    /// A referenced node set is missing.
    NsetNotFound(String),
    /// Errors related to linear algebra or numerical stability.
    NumericalError(String),
    /// Iterative solvers failed to meet convergence criteria.
    ConvergenceError(String),
    /// Invalid model configuration or inconsistent data.
    InvalidModelState(String),
    /// General catch-all error with a message.
    Generic(String),
}

/// What an error says, with texts as character sequences.
pub enum ErrorModel {
    Io { path: Seq<char>, source: Seq<char> },
    GenericIo(Seq<char>),
    ParseError { line: nat, message: Seq<char> },
    UnsupportedKeyword { line: nat, keyword: Seq<char> },
    UnknownSolver(Seq<char>),
    NodeNotFound(NodeId),
    ElementNotFound(ElementId),
    MaterialNotFound(Seq<char>),
    ElsetNotFound(Seq<char>),
    NsetNotFound(Seq<char>),
    NumericalError(Seq<char>),
    ConvergenceError(Seq<char>),
    InvalidModelState(Seq<char>),
    Generic(Seq<char>),
}

impl View for FerrixError {
    type V = ErrorModel;

    open spec fn view(&self) -> ErrorModel {
        match self {
            FerrixError::Io { path, source } => ErrorModel::Io { path: path@, source: source@ },
            FerrixError::GenericIo(m) => ErrorModel::GenericIo(m@),
            FerrixError::ParseError { line, message } => ErrorModel::ParseError {
                line: *line as nat,
                message: message@,
            },
            FerrixError::UnsupportedKeyword { line, keyword } => ErrorModel::UnsupportedKeyword {
                line: *line as nat,
                keyword: keyword@,
            },
            FerrixError::UnknownSolver(m) => ErrorModel::UnknownSolver(m@),
            FerrixError::NodeNotFound(n) => ErrorModel::NodeNotFound(*n),
            FerrixError::ElementNotFound(e) => ErrorModel::ElementNotFound(*e),
            FerrixError::MaterialNotFound(m) => ErrorModel::MaterialNotFound(m@),
            FerrixError::ElsetNotFound(m) => ErrorModel::ElsetNotFound(m@),
            FerrixError::NsetNotFound(m) => ErrorModel::NsetNotFound(m@),
            FerrixError::NumericalError(m) => ErrorModel::NumericalError(m@),
            FerrixError::ConvergenceError(m) => ErrorModel::ConvergenceError(m@),
            FerrixError::InvalidModelState(m) => ErrorModel::InvalidModelState(m@),
            FerrixError::Generic(m) => ErrorModel::Generic(m@),
        }
    }
}

} // verus!
