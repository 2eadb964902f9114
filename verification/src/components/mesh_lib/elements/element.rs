//! Elements of the line-oriented reader.
use crate::text::{
    all_numbers, chars_eq, chars_of, lemma_split_len, number_at, parse_usize, parse_usize_chars,
    split, split_chars, string_of, trim, trim_chars, views,
};
use vstd::prelude::*;

verus! {

/// <https://web.mit.edu/calculix_v2.7/CalculiX/ccx_2.7/doc/ccx/node194.html>
#[derive(Debug)]
pub enum Element {
    /// 4-node linear tetrahedral element
    C3D4(usize, [usize; 4]),
    /// 6-node linear triangular prism element
    C3D6(usize, [usize; 6]),
    /// 3D 20-node quadratic isoparametric element
    C3D20(usize, [usize; 20]),
    /// S8 (8-node quadratic shell element)
    S8(usize, [usize; 8]),
}

/// The message of the errors of `parse_type_str_from_line` (it holds no line
/// number: the braces are part of the text).
pub open spec fn invalid_definition_message() -> Seq<char> {
    "Invalid Element definition on line {line_nr}"@
}

/// The element type that an `*ELEMENT` line names: the text after the last
/// `=` of its second comma-separated piece (trimmed), if there is one.
pub open spec fn element_type_of_line(line: Seq<char>) -> Option<Seq<char>> {
    let pieces = split(line, ',');
    if pieces.len() >= 2 {
        Some(split(trim(pieces[1]), '=').last())
    } else {
        None
    }
}

/// The number of nodes an element type takes, for the types this reader knows.
pub open spec fn node_count(elem_type: Seq<char>) -> Option<nat> {
    if elem_type == "C3D4"@ {
        Some(4)
    } else if elem_type == "C3D6"@ {
        Some(6)
    } else if elem_type == "C3D20"@ {
        Some(20)
    } else if elem_type == "S8"@ {
        Some(8)
    } else {
        None
    }
}

/// The inputs on which `parse_line` makes an element: every piece a number,
/// a known type, and as many node numbers as the type takes.
pub open spec fn line_defines_element(elem_type: Seq<char>, line: Seq<char>) -> bool {
    &&& all_numbers(line)
    &&& node_count(elem_type) is Some
    &&& split(line, ',').len() == node_count(elem_type)->0 + 1
}

impl Element {
    /// The element's id.
    pub open spec fn spec_id(&self) -> usize {
        match self {
            Element::C3D4(id, _) => *id,
            Element::C3D6(id, _) => *id,
            Element::C3D20(id, _) => *id,
            Element::S8(id, _) => *id,
        }
    }

    /// The element's node numbers.
    pub open spec fn spec_nodes(&self) -> Seq<usize> {
        match self {
            Element::C3D4(_, n) => n@,
            Element::C3D6(_, n) => n@,
            Element::C3D20(_, n) => n@,
            Element::S8(_, n) => n@,
        }
    }

    /// The element type's name.
    pub open spec fn elem_type(&self) -> Seq<char> {
        match self {
            Element::C3D4(..) => "C3D4"@,
            Element::C3D6(..) => "C3D6"@,
            Element::C3D20(..) => "C3D20"@,
            Element::S8(..) => "S8"@,
        }
    }

    /// Reads the element type from an `*ELEMENT` line (`*ELEMENT, TYPE=C3D4`):
    /// the text after the last `=` of its second comma-separated piece.
    pub fn parse_type_str_from_line(line: &str) -> (res: Result<String, String>)
        ensures
            match res {
                Ok(t) => element_type_of_line(line@) == Some(t@),
                Err(m) => element_type_of_line(line@) is None && m@ == invalid_definition_message(),
            },
    {
        Self::parse_elem_type_from_chars(&chars_of(line))
    }

    /// `parse_type_str_from_line` on the characters of a line.
    pub fn parse_elem_type_from_chars(s: &Vec<char>) -> (res: Result<String, String>)
        ensures
            match res {
                Ok(t) => element_type_of_line(s@) == Some(t@),
                Err(m) => element_type_of_line(s@) is None && m@ == invalid_definition_message(),
            },
    {
        let pieces = split_chars(s, ',');
        if pieces.len() < 2 {
            return Err(String::from_str("Invalid Element definition on line {line_nr}"));
        }
        let t = trim_chars(&pieces[1]);
        let parts = split_chars(&t, '=');
        proof {
            lemma_split_len(t@, '=');
        }
        Ok(string_of(&parts[parts.len() - 1]))
    }

    /// Creates an element from a data line `ID, N1, N2, ...`.
    pub fn parse_line(elem_type: &str, line: &str) -> (res: Self)
        requires
            line_defines_element(elem_type@, line@),
        ensures
            res.elem_type() == elem_type@,
            res.spec_id() == number_at(line@, 0),
            res.spec_nodes() == Seq::new(
                (split(line@, ',').len() - 1) as nat,
                |i: int| number_at(line@, i + 1),
            ),
    {
        let s = chars_of(line);
        let pieces = split_chars(&s, ',');
        let mut nums: Vec<usize> = Vec::new();
        let mut k: usize = 0;
        while k < pieces.len()
            invariant
                k <= pieces.len(),
                views(pieces@) == split(line@, ','),
                all_numbers(line@),
                nums@.len() == k,
                forall|i: int| 0 <= i < k ==> nums@[i] == number_at(line@, i),
            decreases pieces.len() - k,
        {
            let t = trim_chars(&pieces[k]);
            assert(parse_usize(trim(split(line@, ',')[k as int])) is Ok);
            match parse_usize_chars(&t) {
                Ok(v) => nums.push(v),
                Err(_) => {
                    assert(false);
                    return Element::C3D4(0, [0, 0, 0, 0]);
                },
            }
            k += 1;
        }
        let ts = chars_of(elem_type);
        let id = nums[0];
        if chars_eq(&ts, &chars_of("C3D4")) {
            let arr: [usize; 4] = [nums[1], nums[2], nums[3], nums[4]];
            let res = Element::C3D4(id, arr);
            assert(res.spec_nodes() =~= Seq::new((nums@.len() - 1) as nat, |i: int| number_at(line@, i + 1)));
            res
        } else if chars_eq(&ts, &chars_of("C3D6")) {
            let arr: [usize; 6] = [nums[1], nums[2], nums[3], nums[4], nums[5], nums[6]];
            let res = Element::C3D6(id, arr);
            assert(res.spec_nodes() =~= Seq::new((nums@.len() - 1) as nat, |i: int| number_at(line@, i + 1)));
            res
        } else if chars_eq(&ts, &chars_of("C3D20")) {
            let arr: [usize; 20] = [
                nums[1], nums[2], nums[3], nums[4], nums[5], nums[6], nums[7], nums[8], nums[9],
                nums[10], nums[11], nums[12], nums[13], nums[14], nums[15], nums[16], nums[17],
                nums[18], nums[19], nums[20],
            ];
            let res = Element::C3D20(id, arr);
            assert(res.spec_nodes() =~= Seq::new((nums@.len() - 1) as nat, |i: int| number_at(line@, i + 1)));
            res
        } else {
            let arr: [usize; 8] = [nums[1], nums[2], nums[3], nums[4], nums[5], nums[6], nums[7], nums[8]];
            let res = Element::S8(id, arr);
            assert(res.spec_nodes() =~= Seq::new((nums@.len() - 1) as nat, |i: int| number_at(line@, i + 1)));
            res
        }
    }
}

} // verus!
