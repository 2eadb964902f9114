//! Element types and the reading of element data lines.
use crate::solver::error::{ErrorModel, FerrixError};
use crate::solver::ids::{ElementId, NodeId};
use crate::solver::mesh_lib::elements::c3d10::C3D10;
use crate::solver::mesh_lib::elements::c3d20::C3D20;
use crate::solver::mesh_lib::elements::c3d4::C3D4;
use crate::solver::mesh_lib::elements::c3d6::C3D6;
use crate::solver::parser::{keyword_value, keyword_value_of};
use crate::text::{
    all_numbers, chars_eq, chars_of, lemma_split_len, number_at, parse_usize, parse_usize_chars,
    split, split_chars, trim, trim_chars, views,
};
use vstd::prelude::*;

verus! {

/// Supported finite element types.
#[derive(Debug, Clone)]
pub enum Element {
    /// A 4-node linear tetrahedron (First-order 3D element).
    C3D4(C3D4),
    /// A 6-node linear wedge (First-order 3D element).
    C3D6(C3D6),
    /// A 10-node quadratic tetrahedron (Second-order 3D element).
    C3D10(C3D10),
    /// A 20-node quadratic brick (Second-order 3D element).
    C3D20(C3D20),
}

/// The kinds of `Element`.
#[derive(Debug, Clone, Copy, PartialEq, Eq, Hash, Structural)]
pub enum ElementType {
    C3D4,
    C3D6,
    C3D10,
    C3D20,
}

/// An element as plain values: its type, id and nodes.
pub struct ElementModel {
    pub kind: ElementType,
    pub id: ElementId,
    pub nodes: Seq<NodeId>,
}

impl View for Element {
    type V = ElementModel;

    open spec fn view(&self) -> ElementModel {
        match self {
            Element::C3D4(e) => ElementModel { kind: ElementType::C3D4, id: e.id, nodes: e.nodes@ },
            Element::C3D6(e) => ElementModel { kind: ElementType::C3D6, id: e.id, nodes: e.nodes@ },
            Element::C3D10(e) => ElementModel {
                kind: ElementType::C3D10,
                id: e.id,
                nodes: e.nodes@,
            },
            Element::C3D20(e) => ElementModel {
                kind: ElementType::C3D20,
                id: e.id,
                nodes: e.nodes@,
            },
        }
    }
}

/// The element type named `s` (`C3D4`, `C3D6`, `C3D10` or `C3D20`).
pub open spec fn element_type_named(s: Seq<char>) -> Option<ElementType> {
    if s == "C3D4"@ {
        Some(ElementType::C3D4)
    } else if s == "C3D6"@ {
        Some(ElementType::C3D6)
    } else if s == "C3D10"@ {
        Some(ElementType::C3D10)
    } else if s == "C3D20"@ {
        Some(ElementType::C3D20)
    } else {
        None
    }
}

impl ElementType {
    /// The number of nodes of an element of this type.
    pub open spec fn spec_node_count(self) -> nat {
        match self {
            ElementType::C3D4 => 4,
            ElementType::C3D6 => 6,
            ElementType::C3D10 => 10,
            ElementType::C3D20 => 20,
        }
    }

    /// The message given when a line has the wrong number of nodes for this type.
    pub open spec fn wrong_count_message(self) -> Seq<char> {
        match self {
            ElementType::C3D4 => "Wrong node count for C3D4"@,
            ElementType::C3D6 => "Wrong node count for C3D6"@,
            ElementType::C3D10 => "Wrong node count for C3D10"@,
            ElementType::C3D20 => "Wrong node count for C3D20"@,
        }
    }

    /// The element type named `name`.
    pub fn from_name(name: &str) -> (res: Option<ElementType>)
        ensures
            res == element_type_named(name@),
    {
        let n = chars_of(name);
        if chars_eq(&n, &chars_of("C3D4")) {
            Some(ElementType::C3D4)
        } else if chars_eq(&n, &chars_of("C3D6")) {
            Some(ElementType::C3D6)
        } else if chars_eq(&n, &chars_of("C3D10")) {
            Some(ElementType::C3D10)
        } else if chars_eq(&n, &chars_of("C3D20")) {
            Some(ElementType::C3D20)
        } else {
            None
        }
    }
}

/// The element type that a keyword line names: the value of its `TYPE=`
/// argument.
pub open spec fn type_str_of_line(line: Seq<char>) -> Result<Seq<char>, ErrorModel> {
    match keyword_value(line, "TYPE"@) {
        Some(t) => Ok(t),
        None => Err(ErrorModel::ParseError { line: 0, message: "Invalid element definition"@ }),
    }
}

/// What `Element::parse_line` makes of a data line `ID, N1, N2, ...` for an
/// element type named `elem_type`: every piece must be a number, the type
/// must be known, and the number of nodes must match the type.
pub open spec fn element_of_line(elem_type: Seq<char>, line: Seq<char>) -> Result<ElementModel, ErrorModel> {
    let n = split(line, ',').len();
    if !all_numbers(line) {
        Err(ErrorModel::ParseError { line: 0, message: "Integer conversion failed"@ })
    } else {
        match element_type_named(elem_type) {
            None => Err(
                ErrorModel::ParseError { line: 0, message: "Unknown element definition: "@ + elem_type },
            ),
            Some(kind) => if n != kind.spec_node_count() + 1 {
                Err(ErrorModel::ParseError { line: 0, message: kind.wrong_count_message() })
            } else {
                Ok(
                    ElementModel {
                        kind,
                        id: ElementId(number_at(line, 0)),
                        nodes: Seq::new((n - 1) as nat, |i: int| NodeId(number_at(line, i + 1))),
                    },
                )
            },
        }
    }
}

/// A `ParseError` on line `line` with the given message.
pub fn parse_error(line: usize, message: &str) -> (res: FerrixError)
    ensures
        res@ == (ErrorModel::ParseError { line: line as nat, message: message@ }),
{
    FerrixError::ParseError { line, message: String::from_str(message) }
}

/// The numbers of a data line, or `None` if a piece is no number.
pub fn numbers_of_line(line: &Vec<char>) -> (res: Option<Vec<usize>>)
    ensures
        res is Some <==> all_numbers(line@),
        res matches Some(v) ==> v@.len() == split(line@, ',').len() && forall|i: int|
            0 <= i < v@.len() ==> v@[i] == number_at(line@, i),
{
    let pieces = split_chars(line, ',');
    let mut nums: Vec<usize> = Vec::new();
    let mut k: usize = 0;
    while k < pieces.len()
        invariant
            k <= pieces.len(),
            views(pieces@) == split(line@, ','),
            nums@.len() == k,
            forall|i: int| 0 <= i < k ==> parse_usize(trim(#[trigger] split(line@, ',')[i])) is Ok,
            forall|i: int| 0 <= i < k ==> nums@[i] == number_at(line@, i),
        decreases pieces.len() - k,
    {
        let t = trim_chars(&pieces[k]);
        match parse_usize_chars(&t) {
            Ok(v) => nums.push(v),
            Err(_) => {
                assert(parse_usize(trim(split(line@, ',')[k as int])) is Err);
                return None;
            },
        }
        k += 1;
    }
    Some(nums)
}

impl Element {
    /// Parses the element type name from a keyword line (e.g., `*ELEMENT, TYPE=C3D4`):
    /// the value of its `TYPE=` argument; an error where the line gives none.
    pub fn parse_type_str_from_line(line: &str) -> (res: Result<String, FerrixError>)
        ensures
            match res {
                Ok(t) => type_str_of_line(line@) == Ok::<Seq<char>, ErrorModel>(t@),
                Err(e) => type_str_of_line(line@) == Err::<Seq<char>, ErrorModel>(e@),
            },
    {
        match keyword_value_of(line, "TYPE") {
            Some(t) => Ok(t),
            None => Err(parse_error(0, "Invalid element definition")),
        }
    }

    /// Parses an element's ID and connectivity from a data line.
    pub fn parse_line(elem_type: &str, line: &str) -> (res: Result<Self, FerrixError>)
        ensures
            match res {
                Ok(e) => element_of_line(elem_type@, line@) == Ok::<ElementModel, ErrorModel>(e@),
                Err(err) => element_of_line(elem_type@, line@) == Err::<ElementModel, ErrorModel>(err@),
            },
    {
        let s = chars_of(line);
        let nums = match numbers_of_line(&s) {
            Some(v) => v,
            None => {
                return Err(parse_error(0, "Integer conversion failed"));
            },
        };
        let ghost n = split(line@, ',').len();
        proof {
            lemma_split_len(line@, ',');
        }
        let kind = match ElementType::from_name(elem_type) {
            Some(k) => k,
            None => {
                let msg = String::from_str("Unknown element definition: ").concat(elem_type);
                return Err(FerrixError::ParseError { line: 0, message: msg });
            },
        };
        let id = ElementId(nums[0]);
        match kind {
            ElementType::C3D4 => {
                if nums.len() != 5 {
                    return Err(parse_error(0, "Wrong node count for C3D4"));
                }
                let e = Element::C3D4(
                    C3D4 { id, nodes: [NodeId(nums[1]), NodeId(nums[2]), NodeId(nums[3]), NodeId(nums[4])] },
                );
                assert(e@.nodes =~= Seq::new((n - 1) as nat, |i: int| NodeId(number_at(line@, i + 1))));
                Ok(e)
            },
            ElementType::C3D6 => {
                if nums.len() != 7 {
                    return Err(parse_error(0, "Wrong node count for C3D6"));
                }
                let e = Element::C3D6(
                    C3D6 {
                        id,
                        nodes: [
                            NodeId(nums[1]),
                            NodeId(nums[2]),
                            NodeId(nums[3]),
                            NodeId(nums[4]),
                            NodeId(nums[5]),
                            NodeId(nums[6]),
                        ],
                    },
                );
                assert(e@.nodes =~= Seq::new((n - 1) as nat, |i: int| NodeId(number_at(line@, i + 1))));
                Ok(e)
            },
            ElementType::C3D10 => {
                if nums.len() != 11 {
                    return Err(parse_error(0, "Wrong node count for C3D10"));
                }
                let e = Element::C3D10(
                    C3D10 {
                        id,
                        nodes: [
                            NodeId(nums[1]),
                            NodeId(nums[2]),
                            NodeId(nums[3]),
                            NodeId(nums[4]),
                            NodeId(nums[5]),
                            NodeId(nums[6]),
                            NodeId(nums[7]),
                            NodeId(nums[8]),
                            NodeId(nums[9]),
                            NodeId(nums[10]),
                        ],
                    },
                );
                assert(e@.nodes =~= Seq::new((n - 1) as nat, |i: int| NodeId(number_at(line@, i + 1))));
                Ok(e)
            },
            ElementType::C3D20 => {
                if nums.len() != 21 {
                    return Err(parse_error(0, "Wrong node count for C3D20"));
                }
                let e = Element::C3D20(
                    C3D20 {
                        id,
                        nodes: [
                            NodeId(nums[1]),
                            NodeId(nums[2]),
                            NodeId(nums[3]),
                            NodeId(nums[4]),
                            NodeId(nums[5]),
                            NodeId(nums[6]),
                            NodeId(nums[7]),
                            NodeId(nums[8]),
                            NodeId(nums[9]),
                            NodeId(nums[10]),
                            NodeId(nums[11]),
                            NodeId(nums[12]),
                            NodeId(nums[13]),
                            NodeId(nums[14]),
                            NodeId(nums[15]),
                            NodeId(nums[16]),
                            NodeId(nums[17]),
                            NodeId(nums[18]),
                            NodeId(nums[19]),
                            NodeId(nums[20]),
                        ],
                    },
                );
                assert(e@.nodes =~= Seq::new((n - 1) as nat, |i: int| NodeId(number_at(line@, i + 1))));
                Ok(e)
            },
        }
    }

    /// Returns the unique ID of the element.
    pub fn get_id(&self) -> (res: ElementId)
        ensures
            res == self@.id,
    {
        match self {
            Element::C3D4(e) => e.id(),
            Element::C3D6(e) => e.id(),
            Element::C3D10(e) => e.id(),
            Element::C3D20(e) => e.id(),
        }
    }

    /// Returns the node IDs that form the element's connectivity.
    pub fn get_node_ids(&self) -> (res: &[NodeId])
        ensures
            res@ == self@.nodes,
    {
        match self {
            Element::C3D4(e) => e.nodes(),
            Element::C3D6(e) => e.nodes(),
            Element::C3D10(e) => e.nodes(),
            Element::C3D20(e) => e.nodes(),
        }
    }

    /// The element's type.
    pub fn element_type(&self) -> (res: ElementType)
        ensures
            res == self@.kind,
    {
        match self {
            Element::C3D4(_) => ElementType::C3D4,
            Element::C3D6(_) => ElementType::C3D6,
            Element::C3D10(_) => ElementType::C3D10,
            Element::C3D20(_) => ElementType::C3D20,
        }
    }
}

} // verus!
