//! Sections of a deck for the line-oriented reader.
use crate::text::{chars_eq, chars_of, has_prefix, lines, lines_of, starts_with, views};
use vstd::prelude::*;

verus! {

/// The sections that `parse_sections_from_str` finds in `ls`, in order: a
/// line that is exactly `*NODE` starts a node section, a line that starts
/// with `*ELEMENT` an element section.
pub open spec fn sections_of(ls: Seq<Seq<char>>) -> Seq<InpSection>
    decreases ls.len(),
{
    if ls.len() == 0 {
        Seq::empty()
    } else {
        let init = sections_of(ls.drop_last());
        let nr = (ls.len() - 1) as usize;
        if ls.last() == "*NODE"@ {
            init.push(InpSection::Node(nr))
        } else if starts_with(ls.last(), "*ELEMENT"@) {
            init.push(InpSection::Element(nr))
        } else {
            init
        }
    }
}

/// Finds the node and element sections of a preprocessed deck.
pub fn parse_sections_from_str(string: &str) -> (res: Vec<InpSection>)
    ensures
        res@ == sections_of(lines(string@)),
{
    let s = chars_of(string);
    let ls = lines_of(&s);
    let ghost lv = views(ls@);
    let node = chars_of("*NODE");
    let mut sections: Vec<InpSection> = Vec::new();
    let mut nr: usize = 0;
    while nr < ls.len()
        invariant
            nr <= ls.len(),
            lv == views(ls@),
            lv == lines(string@),
            node@ == "*NODE"@,
            sections@ == sections_of(lv.take(nr as int)),
        decreases ls.len() - nr,
    {
        assert(lv.take(nr + 1).drop_last() =~= lv.take(nr as int));
        assert(ls@[nr as int]@ == lv[nr as int]);
        if chars_eq(&ls[nr], &node) {
            sections.push(InpSection::Node(nr));
        } else if has_prefix(&ls[nr], "*ELEMENT") {
            sections.push(InpSection::Element(nr));
        }
        nr += 1;
    }
    assert(lv.take(ls.len() as int) =~= lv);
    sections
}

/// This preprocess includes:
/// - removing leading and trailing whitespaces
/// - removing comments
/// - making all text uppercase
/// - merging lines that belong together (`,` at the end of line)
/// - removes empty lines
pub fn preprocess_inp(input_file: &str) -> (res: String)
    ensures
        res@ == crate::solver::parsing::joined_pieces(input_file@),
{
    crate::solver::parsing::preprocess_inp(input_file)
}

/// Different types of sections of the .inp file and their line-number
#[derive(Debug, PartialEq, Eq, Clone, Copy, Structural)]
pub enum InpSection {
    Node(usize),
    Element(usize),
}

/// Errors of the line-oriented reader.
#[derive(Debug)]
pub enum InpParsingError {
    /// Keyword is unknown (keyword, line).
    UnknownKeyword(String, u64),
}

} // verus!
