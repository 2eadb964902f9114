//! Section definitions (`*SOLID SECTION`).
use crate::solver::inp::InpFile;
use crate::text::{
    chars_of, has_prefix, lemma_split_len, lines, lines_of, split, split_chars, starts_with,
    string_of, trim, trim_chars, views,
};
use vstd::prelude::*;

verus! {

/// A section definition: element set and material of a solid section.
#[derive(Debug, Clone, PartialEq)]
pub enum Section {
    /// Solid Section Definition (element set, material)
    SolidSection(String, String),
}

/// The kinds of `Section`.
#[derive(Debug, Clone, Copy, PartialEq, Eq, Structural)]
pub enum SectionString {
    SolidSection,
}

/// A section as plain values.
pub enum SectionModel {
    SolidSection(Seq<char>, Seq<char>),
}

impl View for Section {
    type V = SectionModel;

    open spec fn view(&self) -> SectionModel {
        match self {
            Section::SolidSection(a, b) => SectionModel::SolidSection(a@, b@),
        }
    }
}

/// The value of a `KEY=VALUE` argument: the trimmed text after its last `=`.
pub open spec fn argument_value(arg: Seq<char>) -> Seq<char> {
    trim(split(arg, '=').last())
}

/// A `*SOLID SECTION` line has at least two arguments after the keyword.
pub open spec fn has_two_arguments(line: Seq<char>) -> bool {
    split(line, ',').len() >= 3
}

/// The section a `*SOLID SECTION, ELSET=..., MATERIAL=...` line defines: the
/// values of its first two arguments, in order.
pub open spec fn solid_section_of(line: Seq<char>) -> SectionModel {
    let args = split(line, ',');
    SectionModel::SolidSection(argument_value(trim(args[1])), argument_value(trim(args[2])))
}

/// Every line of `text` that starts a solid section has two arguments.
pub open spec fn sections_well_formed(text: Seq<char>) -> bool {
    forall|i: int|
        0 <= i < lines(text).len() && starts_with(#[trigger] lines(text)[i], "*SOLID SECTION"@)
            ==> has_two_arguments(lines(text)[i])
}

/// The sections defined by the lines of `ls`, in order.
pub open spec fn sections_in(ls: Seq<Seq<char>>) -> Seq<SectionModel>
    decreases ls.len(),
{
    if ls.len() == 0 {
        Seq::empty()
    } else if starts_with(ls.last(), "*SOLID SECTION"@) {
        sections_in(ls.drop_last()).push(solid_section_of(ls.last()))
    } else {
        sections_in(ls.drop_last())
    }
}

pub open spec fn section_views(v: Seq<Section>) -> Seq<SectionModel> {
    v.map_values(|s: Section| s@)
}

fn argument_value_of(arg: &Vec<char>) -> (res: String)
    ensures
        res@ == argument_value(arg@),
{
    let parts = split_chars(arg, '=');
    proof {
        lemma_split_len(arg@, '=');
    }
    let t = trim_chars(&parts[parts.len() - 1]);
    string_of(&t)
}

impl SectionString {
    /// The keyword that starts a section of this kind.
    pub fn keyword(&self) -> (res: &str)
        ensures
            res@ == "*SOLID SECTION"@,
    {
        match self {
            SectionString::SolidSection => "*SOLID SECTION",
        }
    }

    /// Creates the section that `line` defines.
    pub fn create(self, line: &str, _next_line: Option<&str>) -> (res: Section)
        requires
            has_two_arguments(line@),
        ensures
            res@ == solid_section_of(line@),
    {
        match self {
            SectionString::SolidSection => {
                let s = chars_of(line);
                let args = split_chars(&s, ',');
                let a = trim_chars(&args[1]);
                let b = trim_chars(&args[2]);
                Section::SolidSection(argument_value_of(&a), argument_value_of(&b))
            },
        }
    }

    /// Collects the sections that a preprocessed deck defines.
    pub fn parse_input(input: &InpFile) -> (res: Vec<Section>)
        requires
            sections_well_formed(input.0@),
        ensures
            section_views(res@) == sections_in(lines(input.0@)),
    {
        let s = chars_of(input.0.as_str());
        let ls = lines_of(&s);
        let ghost lv = views(ls@);
        let mut sections: Vec<Section> = Vec::new();
        let mut k: usize = 0;
        let kind = SectionString::SolidSection;
        while k < ls.len()
            invariant
                k <= ls.len(),
                lv == views(ls@),
                lv == lines(input.0@),
                sections_well_formed(input.0@),
                section_views(sections@) == sections_in(lv.take(k as int)),
            decreases ls.len() - k,
        {
            assert(lv.take(k + 1).drop_last() =~= lv.take(k as int));
            assert(ls@[k as int]@ == lv[k as int]);
            let ghost before = sections@;
            if has_prefix(&ls[k], kind.keyword()) {
                let line = string_of(&ls[k]);
                let sec = kind.create(line.as_str(), None);
                sections.push(sec);
                assert(section_views(sections@) =~= section_views(before).push(sec@));
            }
            k += 1;
        }
        assert(lv.take(ls.len() as int) =~= lv);
        sections
    }
}

} // verus!
