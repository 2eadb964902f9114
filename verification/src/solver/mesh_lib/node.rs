//! Node definitions and parsing.
//!
//! A node is a point in 3D space with a unique identifier; its coordinates
//! are kept as the literals of the input deck.
use crate::solver::ids::NodeId;
use crate::solver::parser::{positional_arguments, string_views, trimmed_strings};
use crate::text::{
    chars_of, is_float_literal, is_float_literal_chars, parse_usize, parse_usize_chars,
    split_chars,
};
use vstd::prelude::*;

verus! {

/// A single node in the finite element mesh.
#[derive(Debug)]
pub struct Node {
    /// Unique identifier for the node.
    pub id: NodeId,
    /// X-coordinate.
    pub x: String,
    /// Y-coordinate.
    pub y: String,
    /// Z-coordinate.
    pub z: String,
}

/// A node as plain values.
pub struct NodeModel {
    pub id: NodeId,
    pub x: Seq<char>,
    pub y: Seq<char>,
    pub z: Seq<char>,
}

impl View for Node {
    type V = NodeModel;

    open spec fn view(&self) -> NodeModel {
        NodeModel { id: self.id, x: self.x@, y: self.y@, z: self.z@ }
    }
}

/// The node a data line `ID, X, Y, Z` defines: exactly four pieces, an
/// integer id and three float literals.
pub open spec fn node_of_line(line: Seq<char>) -> Option<NodeModel> {
    let p = positional_arguments(line);
    if p.len() == 4 && parse_usize(p[0]) is Ok && is_float_literal(p[1]) && is_float_literal(p[2])
        && is_float_literal(p[3]) {
        Some(NodeModel { id: NodeId(parse_usize(p[0])->Ok_0), x: p[1], y: p[2], z: p[3] })
    } else {
        None
    }
}

impl Node {
    /// Parses a node from a comma-separated line (`ID, X, Y, Z`).
    ///
    /// Returns `None` if the line does not hold exactly 4 valid numeric fields.
    pub fn parse_line(line: &str) -> (res: Option<Self>)
        ensures
            match res {
                Some(n) => node_of_line(line@) == Some(n@),
                None => node_of_line(line@) is None,
            },
    {
        let s = chars_of(line);
        let pieces = split_chars(&s, ',');
        let parts = trimmed_strings(&pieces);
        assert(string_views(parts@) == positional_arguments(line@));
        if parts.len() != 4 {
            return None;
        }
        let ghost p = positional_arguments(line@);
        assert(parts@[0]@ == p[0] && parts@[1]@ == p[1] && parts@[2]@ == p[2] && parts@[3]@ == p[3]);
        let id = match parse_usize_chars(&chars_of(parts[0].as_str())) {
            Ok(v) => v,
            Err(_) => {
                return None;
            },
        };
        if !is_float_literal_chars(&chars_of(parts[1].as_str())) || !is_float_literal_chars(
            &chars_of(parts[2].as_str()),
        ) || !is_float_literal_chars(&chars_of(parts[3].as_str())) {
            return None;
        }
        Some(
            Node {
                id: NodeId(id),
                x: parts[1].clone(),
                y: parts[2].clone(),
                z: parts[3].clone(),
            },
        )
    }
}

} // verus!
