use crate::components::mesh_lib::elements::element::{element_type_of_line, Element};
use crate::text::{chars_of, lines, lines_of};
use vstd::prelude::*;

verus! {

/// The element type of an `*ELEMENT` card, with its elements.
#[derive(Debug)]
pub struct ElementSet {
    pub elem_type: String,
    pub elements: Vec<Element>,
}

impl ElementSet {
    /// Reads the element type from line `line_nr` of `string` (an `*ELEMENT`
    /// line); the set starts without elements.
    pub fn from_string(string: &str, line_nr: usize) -> (res: Result<Self, String>)
        requires
            line_nr < lines(string@).len(),
        ensures
            match res {
                Ok(set) => element_type_of_line(lines(string@)[line_nr as int]) == Some(set.elem_type@)
                    && set.elements@.len() == 0,
                Err(m) => element_type_of_line(lines(string@)[line_nr as int]) is None
                    && m@ == crate::components::mesh_lib::elements::element::invalid_definition_message(),
            },
    {
        let s = chars_of(string);
        let ls = lines_of(&s);
        assert(ls@[line_nr as int]@ == lines(string@)[line_nr as int]);
        match Element::parse_elem_type_from_chars(&ls[line_nr]) {
            Ok(elem_type) => Ok(ElementSet { elem_type, elements: Vec::new() }),
            Err(m) => Err(m),
        }
    }
}

} // verus!
