//! Input file parsing engine.
//!
//! Normalisation of `.inp` text, keyword cards and their arguments, and the
//! parser that turns a preprocessed deck into a `Project`.
use crate::name_map::NameMap;
use crate::solver::deck::{
    add_row, all_floats, alternate, amplitude_card, amplitude_named, amplitude_rows, assign_all,
    block_end, boundary_line, card_block, card_line, cload_line, close_step, data_line, data_step,
    is_nan_literal, row_panics, table_row_panics,
    deck_outcome, deck_panics, density_data, depvar_data, dof_if, dof_span, elastic_data,
    element_data, elset_line, entry, expansion_card, expansion_data, finished, first_non_float,
    float_or, initial_conditions_data, keyword_card, keyword_text, lemma_block_end,
    lemma_data_line_counter, lemma_keyword_card_advances, listed_numbers, material_card,
    material_index, nodal_entries, node_data, nset_line, number_or, origin_step, parse_error,
    resolve_target, run, set_all, shift_of, solid_section_card, start_state, step_card,
    stepped_range, with_appended, with_last_material, Card, ParserModel, Stop,
};
use crate::solver::error::{ErrorModel, FerrixError};
use crate::solver::inp::InpFile;
use crate::solver::material::{
    lut_rows, material_views, row_views, BaseMaterial, MaterialModel, TemperatureDependentLUT,
};
use crate::solver::ids::{ElementId, NodeId};
use crate::solver::mesh_lib::elements::element::Element;
use crate::solver::mesh_lib::mesh::numbering_of;
use crate::solver::mesh_lib::node::Node;
use std::collections::HashMap;
use crate::solver::project::{empty_project, Project, ProjectModel};
use crate::solver::amplitude::{Amplitude, AmplitudeModel, TimeSeries};
use crate::solver::increment::IncrementData;
use crate::solver::solvers::SolverType;
use crate::solver::step::steps::{step_views, Step};
use crate::solver::step::boundary_conds::{
    amplitude_or_default, bc_views, clone_bcs, clone_loads, load_views, BoundaryCondition, Load,
    NodalModel,
};
use crate::solver::step::static_step::StaticStep;
use crate::text::{
    chars_eq, chars_of, ends_with, find_char, has_prefix, has_suffix, is_float_literal_chars,
    lemma_find, lemma_split_len, lines, lines_of, parse_usize_chars, replace_char_chars, split,
    split_chars, split_once, split_once_chars, starts_with, str_eq, string_of, sub_chars, to_upper,
    trim, trim_chars, upper, views, contains, eq_ignore_case_exec, is_ascii_text, is_ws,
    lemma_ascii_upper_char, lemma_lines_ascii, lemma_lines_no_newline, lemma_trim,
    lemma_upper_ascii,
};
use aho_corasick::AhoCorasick;
use vstd::prelude::*;

verus! {

// ------------------------------------------------------------------
// Normalisation of the raw text
// ------------------------------------------------------------------

/// One line's effect on the normalisation state `(done, pending)`: blank
/// lines and comment lines (`**`) are dropped; other lines are trimmed and
/// uppercased and appended to the pending line (separated by a space), which
/// is completed unless the line ends with `,`.
pub open spec fn merge_step(st: (Seq<char>, Seq<char>), line: Seq<char>) -> (Seq<char>, Seq<char>) {
    let t = trim(line);
    if t.len() == 0 || starts_with(t, "**"@) {
        st
    } else {
        let u = upper(t);
        let cur = if st.1.len() > 0 {
            st.1.push(' ') + u
        } else {
            u
        };
        if ends_with(u, ","@) {
            (st.0, cur)
        } else {
            (st.0 + cur.push('\n'), Seq::empty())
        }
    }
}

pub open spec fn merge_state(ls: Seq<Seq<char>>) -> (Seq<char>, Seq<char>)
    decreases ls.len(),
{
    if ls.len() == 0 {
        (Seq::empty(), Seq::empty())
    } else {
        merge_step(merge_state(ls.drop_last()), ls.last())
    }
}

/// The normalised deck: every kept line trimmed and uppercased, lines that
/// end with `,` joined to the next one, each resulting line ending with a
/// newline.
pub open spec fn merged_text(input: Seq<char>) -> Seq<char> {
    let st = merge_state(lines(input));
    if st.1.len() > 0 {
        st.0 + st.1.push('\n')
    } else {
        st.0
    }
}

proof fn lemma_merge_state_done(ls: Seq<Seq<char>>)
    ensures
        merge_state(ls).0.len() == 0 || merge_state(ls).0.last() == '\n',
    decreases ls.len(),
{
    if ls.len() > 0 {
        lemma_merge_state_done(ls.drop_last());
    }
}

/// Every line of the normalised text ends with a newline: the text is empty
/// or its last character is a newline.
pub proof fn law_merged_text_ends_with_newline(input: Seq<char>)
    ensures
        merged_text(input).len() == 0 || merged_text(input).last() == '\n',
{
    lemma_merge_state_done(lines(input));
}

/// One line's effect on the lines of the normalised text `(done, pending)`:
/// the step of `merge_step`, with the completed lines kept apart and without
/// their newlines.
pub open spec fn merge_lines_step(st: (Seq<Seq<char>>, Seq<char>), line: Seq<char>) -> (
    Seq<Seq<char>>,
    Seq<char>,
) {
    let t = trim(line);
    if t.len() == 0 || starts_with(t, "**"@) {
        st
    } else {
        let u = upper(t);
        let cur = if st.1.len() > 0 {
            st.1.push(' ') + u
        } else {
            u
        };
        if ends_with(u, ","@) {
            (st.0, cur)
        } else {
            (st.0.push(cur), Seq::empty())
        }
    }
}

pub open spec fn merge_lines_state(ls: Seq<Seq<char>>) -> (Seq<Seq<char>>, Seq<char>)
    decreases ls.len(),
{
    if ls.len() == 0 {
        (Seq::empty(), Seq::empty())
    } else {
        merge_lines_step(merge_lines_state(ls.drop_last()), ls.last())
    }
}

/// The lines of the normalised deck, without their newlines.
pub open spec fn normalised_lines(input: Seq<char>) -> Seq<Seq<char>> {
    let st = merge_lines_state(lines(input));
    if st.1.len() > 0 {
        st.0.push(st.1)
    } else {
        st.0
    }
}

/// Lines joined into a text, each followed by a newline.
pub open spec fn joined_lines(ls: Seq<Seq<char>>) -> Seq<char> {
    ls.map_values(|l: Seq<char>| l.push('\n')).flatten_alt()
}

/// A line as the documentation of `preprocess_inp` describes it: not empty,
/// trimmed, not a comment, one line, and without lowercase ASCII letters.
pub open spec fn is_normalised_line(x: Seq<char>) -> bool {
    &&& x.len() > 0
    &&& !is_ws(x[0])
    &&& !is_ws(x.last())
    &&& !starts_with(x, "**"@)
    &&& !contains(x, '\n')
    &&& forall|j: int| 0 <= j < x.len() ==> !('a' <= #[trigger] x[j] && x[j] <= 'z')
}

pub(crate) proof fn lemma_two_stars(s: Seq<char>)
    ensures
        starts_with(s, "**"@) <==> (s.len() >= 2 && s[0] == '*' && s[1] == '*'),
{
    reveal_strlit("**");
    assert("**"@ =~= seq!['*', '*']);
    if s.len() >= 2 {
        assert(s.take(2) =~= seq![s[0], s[1]]);
        assert(s.take(2)[0] == s[0] && s.take(2)[1] == s[1]);
    }
}

pub(crate) proof fn lemma_comma_end(s: Seq<char>)
    ensures
        ends_with(s, ","@) <==> (s.len() >= 1 && s.last() == ','),
{
    reveal_strlit(",");
    assert(","@ =~= seq![',']);
    if s.len() >= 1 {
        assert(s.skip(s.len() - 1) =~= seq![s.last()]);
        assert(s.skip(s.len() - 1)[0] == s.last());
    }
}

proof fn lemma_merge_lines_state(ls: Seq<Seq<char>>)
    ensures
        merge_state(ls) == (joined_lines(merge_lines_state(ls).0), merge_lines_state(ls).1),
        forall|i: int|
            0 <= i < merge_lines_state(ls).0.len() ==> !ends_with(
                #[trigger] merge_lines_state(ls).0[i],
                ","@,
            ),
        merge_lines_state(ls).1.len() > 0 ==> ends_with(merge_lines_state(ls).1, ","@),
    decreases ls.len(),
{
    if ls.len() > 0 {
        lemma_merge_lines_state(ls.drop_last());
        let st = merge_lines_state(ls.drop_last());
        let t = trim(ls.last());
        if !(t.len() == 0 || starts_with(t, "**"@)) {
            let u = upper(t);
            let cur = if st.1.len() > 0 {
                st.1.push(' ') + u
            } else {
                u
            };
            lemma_comma_end(u);
            lemma_comma_end(cur);
            if u.len() > 0 {
                assert(cur.last() == u.last());
            }
            if !ends_with(u, ","@) {
                let d = st.0.push(cur);
                assert(d.map_values(|l: Seq<char>| l.push('\n')).drop_last() =~= st.0.map_values(
                    |l: Seq<char>| l.push('\n'),
                ));
                assert forall|i: int| 0 <= i < d.len() implies !ends_with(#[trigger] d[i], ","@) by {
                    if i < st.0.len() {
                        assert(d[i] == st.0[i]);
                    }
                }
            }
        }
    }
}

proof fn lemma_normalised_cur(x: Seq<char>, u: Seq<char>)
    requires
        x.len() > 0 ==> is_normalised_line(x),
        is_normalised_line(u),
    ensures
        is_normalised_line(if x.len() > 0 {
            x.push(' ') + u
        } else {
            u
        }),
{
    if x.len() > 0 {
        let c = x.push(' ') + u;
        lemma_two_stars(x);
        lemma_two_stars(c);
        assert(c[0] == x[0]);
        assert(c.last() == u.last());
        if x.len() >= 2 {
            assert(c[1] == x[1]);
        } else {
            assert(c[1] == ' ');
        }
        assert forall|j: int| 0 <= j < c.len() implies c[j] != '\n' && !('a' <= #[trigger] c[j] && c[j]
            <= 'z') by {
            if j < x.len() {
                assert(c[j] == x[j]);
            } else if j > x.len() {
                assert(c[j] == u[j - x.len() - 1]);
            }
        }
    }
}

proof fn lemma_normalised_piece(l: Seq<char>)
    requires
        is_ascii_text(l),
        !contains(l, '\n'),
        trim(l).len() > 0,
        !starts_with(trim(l), "**"@),
    ensures
        is_normalised_line(upper(trim(l))),
{
    let t = trim(l);
    lemma_trim(l);
    let (lo, hi) = choose|lo: int, hi: int| 0 <= lo <= hi <= l.len() && #[trigger] l.subrange(lo, hi) == t;
    assert forall|j: int| 0 <= j < t.len() implies (#[trigger] t[j] as u32) < 128 && t[j] != '\n' by {
        assert(t[j] == l[lo + j]);
    }
    lemma_upper_ascii(t);
    let u = upper(t);
    assert forall|j: int| 0 <= j < u.len() implies u[j] != '\n' && !('a' <= #[trigger] u[j] && u[j]
        <= 'z') && is_ws(u[j]) == is_ws(t[j]) && (u[j] == '*') == (t[j] == '*') by {
        lemma_ascii_upper_char(t[j]);
    }
    lemma_two_stars(t);
    lemma_two_stars(u);
    assert(u[u.len() - 1] == u.last());
    assert(t[t.len() - 1] == t.last());
}

proof fn lemma_normalised_state(ls: Seq<Seq<char>>)
    requires
        forall|i: int| 0 <= i < ls.len() ==> is_ascii_text(#[trigger] ls[i]),
        forall|i: int| 0 <= i < ls.len() ==> !contains(#[trigger] ls[i], '\n'),
    ensures
        forall|i: int|
            0 <= i < merge_lines_state(ls).0.len() ==> is_normalised_line(
                #[trigger] merge_lines_state(ls).0[i],
            ),
        merge_lines_state(ls).1.len() > 0 ==> is_normalised_line(merge_lines_state(ls).1),
    decreases ls.len(),
{
    if ls.len() > 0 {
        let init = ls.drop_last();
        assert forall|i: int| 0 <= i < init.len() implies is_ascii_text(#[trigger] init[i]) && !contains(
            init[i],
            '\n',
        ) by {
            assert(init[i] == ls[i]);
        }
        lemma_normalised_state(init);
        let st = merge_lines_state(init);
        let l = ls.last();
        assert(is_ascii_text(ls[ls.len() - 1]) && !contains(ls[ls.len() - 1], '\n'));
        let t = trim(l);
        if !(t.len() == 0 || starts_with(t, "**"@)) {
            lemma_normalised_piece(l);
            lemma_normalised_cur(st.1, upper(t));
            let cur = if st.1.len() > 0 {
                st.1.push(' ') + upper(t)
            } else {
                upper(t)
            };
            let d = st.0.push(cur);
            assert forall|i: int| 0 <= i < d.len() implies is_normalised_line(#[trigger] d[i]) by {
                if i < st.0.len() {
                    assert(d[i] == st.0[i]);
                }
            }
        }
    }
}

/// What the normalisation promises of its output: it is its lines, each
/// followed by a newline; no line but the last ends with `,` (a line that
/// ends with `,` is joined to the next); and on a deck of ASCII text every
/// line is non-empty, trimmed, not a comment, and free of lowercase letters.
pub proof fn law_normalised_lines(input: Seq<char>)
    ensures
        merged_text(input) == joined_lines(normalised_lines(input)),
        forall|i: int|
            0 <= i < normalised_lines(input).len() - 1 ==> !ends_with(
                #[trigger] normalised_lines(input)[i],
                ","@,
            ),
        is_ascii_text(input) ==> forall|i: int|
            0 <= i < normalised_lines(input).len() ==> is_normalised_line(
                #[trigger] normalised_lines(input)[i],
            ),
{
    let ls = lines(input);
    lemma_merge_lines_state(ls);
    let st = merge_lines_state(ls);
    let l = normalised_lines(input);
    if st.1.len() > 0 {
        assert(l.map_values(|x: Seq<char>| x.push('\n')).drop_last() =~= st.0.map_values(
            |x: Seq<char>| x.push('\n'),
        ));
        assert forall|i: int| 0 <= i < l.len() - 1 implies !ends_with(#[trigger] l[i], ","@) by {
            assert(l[i] == st.0[i]);
        }
    }
    if is_ascii_text(input) {
        lemma_lines_no_newline(input);
        lemma_lines_ascii(input);
        lemma_normalised_state(ls);
        assert forall|i: int| 0 <= i < l.len() implies is_normalised_line(#[trigger] l[i]) by {
            if i < st.0.len() {
                assert(l[i] == st.0[i]);
            }
        }
    }
}

/// The solver names of other programs that are mapped to this solver's names.
pub open spec fn solver_patterns() -> Seq<Seq<char>> {
    seq!["ITERATIVE CHOLESKY"@, "ITERATIVE SCALING"@, "PASTIX"@, "PARDISO"@, "SPOOLES"@]
}

/// What each of `solver_patterns` is replaced with.
pub open spec fn solver_replacements() -> Seq<Seq<char>> {
    seq!["ITERATIVE"@, "ITERATIVE"@, "DIRECT"@, "DIRECT"@, "DIRECT"@]
}

/// The views of a vector of strings.
pub open spec fn string_views(v: Seq<String>) -> Seq<Seq<char>> {
    v.map_values(|s: String| s@)
}

/// Whether `AhoCorasick::new` builds a searcher for the given patterns.
pub uninterp spec fn ac_builds(patterns: Seq<Seq<char>>) -> bool;

/// What `AhoCorasick::replace_all` returns for a searcher built (with the
/// default configuration) from `patterns`, the replacements and the haystack.
pub uninterp spec fn ac_replaced(
    patterns: Seq<Seq<char>>,
    replacements: Seq<Seq<char>>,
    haystack: Seq<char>,
) -> Seq<char>;

/// `p` occurs in `h`.
pub open spec fn occurs_in(h: Seq<char>, p: Seq<char>) -> bool {
    exists|i: int| 0 <= i && i + p.len() <= h.len() && #[trigger] h.subrange(i, i + p.len()) == p
}

/// `AhoCorasick::new(patterns)` followed by `replace_all(haystack, replacements)`.
/// The contract names both outcomes: whether the searcher builds (a function of
/// the patterns alone) and the replaced text (a function of the three inputs).
/// `replace_all` panics only when the lengths differ (ruled out by `requires`)
/// or when the searcher does not support unanchored search, which the default
/// configuration does. It copies the haystack and replaces each match, so a
/// haystack in which no pattern occurs comes back unchanged; that is stated
/// too.
#[verifier::external_body]
fn ac_replace_all(patterns: &Vec<String>, replacements: &Vec<String>, haystack: &str) -> (res:
    Option<String>)
    requires
        patterns.len() == replacements.len(),
    ensures
        res is Some <==> ac_builds(string_views(patterns@)),
        res matches Some(r) ==> r@ == ac_replaced(
            string_views(patterns@),
            string_views(replacements@),
            haystack@,
        ),
        res matches Some(r) ==> (forall|j: int|
            0 <= j < patterns@.len() ==> !occurs_in(haystack@, #[trigger] patterns@[j]@)) ==> r@
            == haystack@,
{
    match AhoCorasick::new(patterns) {
        Ok(ac) => Some(ac.replace_all(haystack, replacements)),
        Err(_) => None,
    }
}

fn strings_of(items: &[&str]) -> (res: Vec<String>)
    ensures
        string_views(res@) == items@.map_values(|s: &str| s@),
{
    let mut res: Vec<String> = Vec::new();
    let mut k: usize = 0;
    while k < items.len()
        invariant
            k <= items@.len(),
            string_views(res@) =~= items@.take(k as int).map_values(|s: &str| s@),
        decreases items@.len() - k,
    {
        let ghost before = res@;
        let item = String::from_str(items[k]);
        assert(item@ == items@[k as int]@);
        res.push(item);
        assert(string_views(res@) =~= string_views(before).push(items@[k as int]@));
        assert(items@.take(k + 1).map_values(|s: &str| s@) =~= items@.take(k as int).map_values(
            |s: &str| s@,
        ).push(items@[k as int]@));
        k += 1;
    }
    assert(items@.take(items@.len() as int) =~= items@);
    res
}

/// The text after mapping the solver names of other programs to this
/// solver's (`ITERATIVE CHOLESKY`, `ITERATIVE SCALING` to `ITERATIVE`;
/// `PASTIX`, `PARDISO`, `SPOOLES` to `DIRECT`).
pub open spec fn solvers_substituted(input: Seq<char>) -> Seq<char> {
    if ac_builds(solver_patterns()) {
        ac_replaced(solver_patterns(), solver_replacements(), input)
    } else {
        input
    }
}

/// No solver name of another program occurs in `s`.
pub open spec fn no_solver_names(s: Seq<char>) -> bool {
    forall|j: int| 0 <= j < solver_patterns().len() ==> !occurs_in(s, #[trigger] solver_patterns()[j])
}

/// The solver names hold no `,` or newline and do not start with a space.
proof fn lemma_solver_patterns()
    ensures
        forall|j: int|
            0 <= j < solver_patterns().len() ==> {
                let p = #[trigger] solver_patterns()[j];
                &&& p.len() > 0
                &&& p[0] != ' '
                &&& !contains(p, ',')
                &&& !contains(p, '\n')
            },
{
    reveal_strlit("ITERATIVE CHOLESKY");
    reveal_strlit("ITERATIVE SCALING");
    reveal_strlit("PASTIX");
    reveal_strlit("PARDISO");
    reveal_strlit("SPOOLES");
    assert forall|j: int| 0 <= j < solver_patterns().len() implies {
        let p = #[trigger] solver_patterns()[j];
        &&& p.len() > 0
        &&& p[0] != ' '
        &&& !contains(p, ',')
        &&& !contains(p, '\n')
    } by {
        let p = solver_patterns()[j];
        assert forall|k: int| 0 <= k < p.len() implies p[k] != ',' && p[k] != '\n' by {
            if j == 0 {
                assert(p =~= seq!['I', 'T', 'E', 'R', 'A', 'T', 'I', 'V', 'E', ' ', 'C', 'H', 'O', 'L', 'E', 'S', 'K', 'Y']);
            } else if j == 1 {
                assert(p =~= seq!['I', 'T', 'E', 'R', 'A', 'T', 'I', 'V', 'E', ' ', 'S', 'C', 'A', 'L', 'I', 'N', 'G']);
            } else if j == 2 {
                assert(p =~= seq!['P', 'A', 'S', 'T', 'I', 'X']);
            } else if j == 3 {
                assert(p =~= seq!['P', 'A', 'R', 'D', 'I', 'S', 'O']);
            } else {
                assert(p =~= seq!['S', 'P', 'O', 'O', 'L', 'E', 'S']);
            }
        }
    }
}

/// An occurrence in `x + y` lies in `x` or in `y` where the last character
/// of `x` is not one of the pattern's.
proof fn lemma_occurs_concat(x: Seq<char>, y: Seq<char>, p: Seq<char>)
    requires
        x.len() == 0 || !contains(p, x.last()),
        p.len() > 0,
    ensures
        occurs_in(x + y, p) ==> occurs_in(x, p) || occurs_in(y, p),
{
    if occurs_in(x + y, p) {
        let s = x + y;
        let i = choose|i: int| 0 <= i && i + p.len() <= s.len() && #[trigger] s.subrange(i, i + p.len()) == p;
        if i + p.len() <= x.len() {
            assert(x.subrange(i, i + p.len()) =~= s.subrange(i, i + p.len()));
        } else if i >= x.len() {
            assert(y.subrange(i - x.len(), i - x.len() + p.len()) =~= s.subrange(i, i + p.len()));
        } else {
            let k = x.len() - 1 - i;
            assert(s.subrange(i, i + p.len())[k] == x.last());
            assert(p[k] == x.last());
        }
    }
}

/// An occurrence in `s[lo..hi]` is one in `s`.
proof fn lemma_occurs_sub(s: Seq<char>, lo: int, hi: int, p: Seq<char>)
    requires
        0 <= lo <= hi <= s.len(),
    ensures
        occurs_in(s.subrange(lo, hi), p) ==> occurs_in(s, p),
{
    if occurs_in(s.subrange(lo, hi), p) {
        let t = s.subrange(lo, hi);
        let i = choose|i: int| 0 <= i && i + p.len() <= t.len() && #[trigger] t.subrange(i, i + p.len()) == p;
        assert(s.subrange(lo + i, lo + i + p.len()) =~= t.subrange(i, i + p.len()));
    }
}

/// The uppercase of a concatenation is the concatenation of the uppercases.
pub proof fn lemma_upper_concat(a: Seq<char>, b: Seq<char>)
    ensures
        upper(a + b) == upper(a) + upper(b),
    decreases b.len(),
{
    if b.len() == 0 {
        assert(a + b =~= a);
        assert(upper(b) =~= Seq::<char>::empty());
        assert(upper(a) + upper(b) =~= upper(a));
    } else {
        lemma_upper_concat(a, b.drop_last());
        assert((a + b).drop_last() =~= a + b.drop_last());
        assert((a + b).last() == b.last());
        assert(upper(a) + upper(b) =~= upper(a) + upper(b.drop_last()) + crate::text::upper_char(b.last()));
    }
}

/// No solver name occurs in the uppercase of the trimmed line where none
/// occurs in the uppercase of the line.
proof fn lemma_trimmed_no_names(l: Seq<char>)
    requires
        no_solver_names(upper(l)),
    ensures
        no_solver_names(upper(trim(l))),
{
    lemma_trim(l);
    let (lo, hi) = choose|lo: int, hi: int| 0 <= lo <= hi <= l.len() && #[trigger] l.subrange(lo, hi) == trim(l);
    let a = l.take(lo);
    let t = l.subrange(lo, hi);
    let c = l.skip(hi);
    assert(l =~= a + t + c);
    lemma_upper_concat(a + t, c);
    lemma_upper_concat(a, t);
    let u = upper(l);
    assert(u.subrange(upper(a).len() as int, (upper(a).len() + upper(t).len()) as int) =~= upper(t));
    assert forall|j: int| 0 <= j < solver_patterns().len() implies !occurs_in(upper(trim(l)), #[trigger] solver_patterns()[j]) by {
        lemma_occurs_sub(u, upper(a).len() as int, (upper(a).len() + upper(t).len()) as int, solver_patterns()[j]);
    }
}

proof fn lemma_merge_no_names(ls: Seq<Seq<char>>)
    requires
        forall|i: int| 0 <= i < ls.len() ==> no_solver_names(upper(#[trigger] ls[i])),
    ensures
        no_solver_names(merge_state(ls).0),
        no_solver_names(merge_state(ls).1),
        merge_state(ls).0.len() == 0 || merge_state(ls).0.last() == '\n',
        merge_state(ls).1.len() > 0 ==> merge_state(ls).1.last() == ',',
    decreases ls.len(),
{
    lemma_solver_patterns();
    reveal_strlit(",");
    if ls.len() == 0 {
        assert forall|j: int| 0 <= j < solver_patterns().len() implies !occurs_in(Seq::<char>::empty(), #[trigger] solver_patterns()[j]) by {}
    } else {
        let init = ls.drop_last();
        assert forall|i: int| 0 <= i < init.len() implies no_solver_names(upper(#[trigger] init[i])) by {
            assert(init[i] == ls[i]);
        }
        lemma_merge_no_names(init);
        let st = merge_state(init);
        let l = ls.last();
        assert(no_solver_names(upper(ls[ls.len() - 1])));
        let t = trim(l);
        if !(t.len() == 0 || starts_with(t, "**"@)) {
            lemma_trimmed_no_names(l);
            let u = upper(t);
            lemma_comma_end(u);
            let cur = if st.1.len() > 0 {
                st.1.push(' ') + u
            } else {
                u
            };
            assert forall|j: int| 0 <= j < solver_patterns().len() implies !occurs_in(cur, #[trigger] solver_patterns()[j]) by {
                let p = solver_patterns()[j];
                if st.1.len() > 0 {
                    assert(cur =~= st.1 + (seq![' '] + u));
                    assert(!contains(p, ','));
                    lemma_occurs_concat(st.1, seq![' '] + u, p);
                    assert(p[0] != ' ');
                    if occurs_in(seq![' '] + u, p) {
                        let w = seq![' '] + u;
                        let i = choose|i: int| 0 <= i && i + p.len() <= w.len() && #[trigger] w.subrange(i, i + p.len()) == p;
                        if i == 0 {
                            assert(w.subrange(0, p.len() as int)[0] == ' ');
                        } else {
                            assert(u.subrange(i - 1, i - 1 + p.len()) =~= w.subrange(i, i + p.len()));
                        }
                    }
                }
            }
            if u.len() > 0 {
                assert(cur.last() == u.last());
            }
            if !ends_with(u, ","@) {
                let d = st.0 + cur.push('\n');
                assert forall|j: int| 0 <= j < solver_patterns().len() implies !occurs_in(d, #[trigger] solver_patterns()[j]) by {
                    let p = solver_patterns()[j];
                    assert(d =~= st.0 + (cur + seq!['\n']));
                    if st.0.len() > 0 {
                        assert(!contains(p, '\n'));
                    }
                    lemma_occurs_concat(st.0, cur + seq!['\n'], p);
                    if occurs_in(cur + seq!['\n'], p) {
                        let w = cur + seq!['\n'];
                        let i = choose|i: int| 0 <= i && i + p.len() <= w.len() && #[trigger] w.subrange(i, i + p.len()) == p;
                        if i + p.len() <= cur.len() {
                            assert(cur.subrange(i, i + p.len()) =~= w.subrange(i, i + p.len()));
                        } else {
                            assert(w.subrange(i, i + p.len())[w.len() - 1 - i] == '\n');
                        }
                    }
                }
                assert forall|j: int| 0 <= j < solver_patterns().len() implies !occurs_in(Seq::<char>::empty(), #[trigger] solver_patterns()[j]) by {}
            }
        }
    }
}

/// The normalised text holds no solver name of another program where no
/// line of the deck holds one once uppercased.
pub proof fn law_merged_text_without_solver_names(input: Seq<char>)
    requires
        forall|i: int| 0 <= i < lines(input).len() ==> no_solver_names(upper(#[trigger] lines(input)[i])),
    ensures
        no_solver_names(merged_text(input)),
{
    let ls = lines(input);
    lemma_merge_no_names(ls);
    lemma_solver_patterns();
    let st = merge_state(ls);
    if st.1.len() > 0 {
        assert forall|j: int| 0 <= j < solver_patterns().len() implies !occurs_in(merged_text(input), #[trigger] solver_patterns()[j]) by {
            let p = solver_patterns()[j];
            let w = st.1 + seq!['\n'];
            assert(merged_text(input) =~= st.0 + w);
            if st.0.len() > 0 {
                assert(!contains(p, '\n'));
            }
            lemma_occurs_concat(st.0, w, p);
            assert(!contains(p, ','));
            lemma_occurs_concat(st.1, seq!['\n'], p);
            if occurs_in(seq!['\n'], p) {
                let i = choose|i: int| 0 <= i && i + p.len() <= 1 && #[trigger] seq!['\n'].subrange(i, i + p.len()) == p;
                assert(p[0] == '\n');
            }
        }
    }
}

/// Maps the common `CalculiX` solvers to supported `Ferrix` solvers.
///
/// Where the matcher cannot be built the text is returned unchanged.
pub fn substitute_ccx_solvers(input_file: &str) -> (res: String)
    ensures
        res@ == solvers_substituted(input_file@),
        no_solver_names(input_file@) ==> res@ == input_file@,
{
    let patterns = strings_of(
        &["ITERATIVE CHOLESKY", "ITERATIVE SCALING", "PASTIX", "PARDISO", "SPOOLES"],
    );
    let replaces = strings_of(&["ITERATIVE", "ITERATIVE", "DIRECT", "DIRECT", "DIRECT"]);
    proof {
        reveal_strlit("ITERATIVE CHOLESKY");
        reveal_strlit("ITERATIVE SCALING");
        reveal_strlit("PASTIX");
        reveal_strlit("PARDISO");
        reveal_strlit("SPOOLES");
        reveal_strlit("ITERATIVE");
        reveal_strlit("DIRECT");
        assert(string_views(patterns@) =~= solver_patterns());
        assert(string_views(replaces@) =~= solver_replacements());
    }
    assert forall|j: int| 0 <= j < patterns@.len() implies #[trigger] patterns@[j]@ == solver_patterns()[j] by {
        assert(string_views(patterns@)[j] == patterns@[j]@);
    }
    match ac_replace_all(&patterns, &replaces, input_file) {
        Some(r) => r,
        None => String::from_str(input_file),
    }
}

/// The normalisation of `preprocess_inp` before the solver names are mapped:
/// blank and comment lines removed, lines trimmed and uppercased, lines that
/// end with `,` joined to the next.
pub fn normalize_inp(input_file: &str) -> (res: String)
    ensures
        res@ == merged_text(input_file@),
{
    let s = chars_of(input_file);
    let ls = lines_of(&s);
    let ghost lv = views(ls@);
    let mut done: Vec<char> = Vec::new();
    let mut cur: Vec<char> = Vec::new();
    let mut k: usize = 0;
    while k < ls.len()
        invariant
            k <= ls.len(),
            lv == views(ls@),
            lv == lines(input_file@),
            (done@, cur@) == merge_state(lv.take(k as int)),
        decreases ls.len() - k,
    {
        assert(lv.take(k + 1).drop_last() =~= lv.take(k as int));
        assert(ls@[k as int]@ == lv[k as int]);
        let t = trim_chars(&ls[k]);
        proof {
            reveal_strlit("**");
            reveal_strlit(",");
        }
        if t.len() == 0 || has_prefix(&t, "**") {
            k += 1;
            continue;
        }
        let mut u = to_upper(&t);
        let comma = has_suffix(&u, ",");
        if cur.len() > 0 {
            cur.push(' ');
        }
        cur.append(&mut u);
        if !comma {
            done.append(&mut cur);
            done.push('\n');
        }
        k += 1;
    }
    assert(lv.take(ls.len() as int) =~= lv);
    if cur.len() > 0 {
        done.append(&mut cur);
        done.push('\n');
    }
    string_of(&done)
}

/// The preprocessed deck: `merged_text`, then solver names mapped.
pub open spec fn preprocessed(input: Seq<char>) -> Seq<char> {
    solvers_substituted(merged_text(input))
}

/// This preprocess includes:
/// - removing leading and trailing whitespaces
/// - removing comments
/// - making all text uppercase
/// - merging lines that belong together (`,` at the end of line)
/// - removes empty lines
/// - mapping solver names of CalculiX to the supported ones
pub fn preprocess_inp(input_file: &str) -> (res: String)
    ensures
        res@ == preprocessed(input_file@),
        no_solver_names(merged_text(input_file@)) ==> res@ == merged_text(input_file@),
{
    let merged = normalize_inp(input_file);
    substitute_ccx_solvers(merged.as_str())
}


// ------------------------------------------------------------------
// Arguments of a keyword line
// ------------------------------------------------------------------

/// One argument of a keyword line: `KEY=VALUE` gives the trimmed key and
/// value; an argument without `=` gives the trimmed text and no value.
pub open spec fn keyword_argument(p: Seq<char>) -> (Seq<char>, Option<Seq<char>>) {
    match split_once(p, '=') {
        Some((k, v)) => (trim(k), Some(trim(v))),
        None => (trim(p), None),
    }
}

/// The arguments `args` collected into a map, a later one for the same key
/// overriding an earlier one.
pub open spec fn arguments_map(args: Seq<Seq<char>>) -> Map<Seq<char>, Option<Seq<char>>>
    decreases args.len(),
{
    if args.len() == 0 {
        Map::empty()
    } else {
        let (k, v) = keyword_argument(args.last());
        arguments_map(args.drop_last()).insert(k, v)
    }
}

/// The keyword arguments of a keyword line: every comma-separated piece after
/// the first.
pub open spec fn keyword_arguments(line: Seq<char>) -> Map<Seq<char>, Option<Seq<char>>> {
    arguments_map(split(line, ',').skip(1))
}

/// The value given for `key` on a keyword line, if the key is there with `=`.
pub open spec fn keyword_value(line: Seq<char>, key: Seq<char>) -> Option<Seq<char>> {
    if keyword_arguments(line).contains_key(key) {
        keyword_arguments(line)[key]
    } else {
        None
    }
}

pub open spec fn option_view(o: Option<String>) -> Option<Seq<char>> {
    match o {
        Some(s) => Some(s@),
        None => None,
    }
}

/// Splits a keyword line such as `*STEP, NLGEOM, INC=100` into its arguments:
/// `{"NLGEOM": None, "INC": Some("100")}`.
pub fn get_keyword_arguments(line: &str) -> (res: NameMap<Option<String>>)
    ensures
        res.map().map_values(|o: Option<String>| option_view(o)) == keyword_arguments(line@),
{
    let s = chars_of(line);
    let pieces = split_chars(&s, ',');
    let ghost args = split(line@, ',').skip(1);
    let mut res: NameMap<Option<String>> = NameMap::new();
    let mut k: usize = 1;
    proof {
        crate::text::lemma_split_len(line@, ',');
    }
    while k < pieces.len()
        invariant
            1 <= k <= pieces.len(),
            views(pieces@) == split(line@, ','),
            args == split(line@, ',').skip(1),
            res.map().map_values(|o: Option<String>| option_view(o)) =~= arguments_map(
                args.take(k - 1),
            ),
        decreases pieces.len() - k,
    {
        assert(args.take(k as int).drop_last() =~= args.take(k - 1));
        assert(args[k - 1] == pieces@[k as int]@);
        let ghost before = res.map();
        match split_once_chars(&pieces[k], '=') {
            Some((key, value)) => {
                let key_t = trim_chars(&key);
                let value_t = trim_chars(&value);
                let ghost kv = key_t@;
                let ghost vv = value_t@;
                res.insert(string_of(&key_t), Some(string_of(&value_t)));
                assert(res.map().map_values(|o: Option<String>| option_view(o)) =~= before.map_values(
                    |o: Option<String>| option_view(o),
                ).insert(kv, Some(vv)));
            },
            None => {
                let key_t = trim_chars(&pieces[k]);
                let ghost kv = key_t@;
                res.insert(string_of(&key_t), None);
                assert(res.map().map_values(|o: Option<String>| option_view(o)) =~= before.map_values(
                    |o: Option<String>| option_view(o),
                ).insert(kv, None));
            },
        }
        k += 1;
    }
    assert(args.take(k - 1) =~= args);
    res
}

/// The value given for `key` on a keyword line, if the key is there with `=`
/// (the last one where it is given more than once).
pub fn keyword_value_of(line: &str, key: &str) -> (res: Option<String>)
    ensures
        option_view(res) == keyword_value(line@, key@),
{
    let args = get_keyword_arguments(line);
    let ghost m = args.map();
    proof {
        assert(m.map_values(|o: Option<String>| option_view(o)).contains_key(key@) == m.contains_key(key@));
    }
    match args.get(key) {
        Some(Some(v)) => {
            assert(m.map_values(|o: Option<String>| option_view(o))[key@] == option_view(m[key@]));
            Some(v.clone())
        },
        Some(None) => {
            assert(m.map_values(|o: Option<String>| option_view(o))[key@] == option_view(m[key@]));
            None
        },
        None => None,
    }
}

/// The trimmed comma-separated pieces of a data line.
pub open spec fn positional_arguments(line: Seq<char>) -> Seq<Seq<char>> {
    split(line, ',').map_values(|p: Seq<char>| trim(p))
}

/// Splits a data line such as `0.1, 1, 1E-05` into its trimmed pieces.
pub fn get_positional_arguments(line: &str) -> (res: Vec<String>)
    ensures
        string_views(res@) == positional_arguments(line@),
{
    let s = chars_of(line);
    let pieces = split_chars(&s, ',');
    trimmed_strings(&pieces)
}

/// Trims each piece and makes it a `String`.
pub fn trimmed_strings(pieces: &Vec<Vec<char>>) -> (res: Vec<String>)
    ensures
        string_views(res@) == views(pieces@).map_values(|p: Seq<char>| trim(p)),
{
    let mut res: Vec<String> = Vec::new();
    let mut k: usize = 0;
    while k < pieces.len()
        invariant
            k <= pieces.len(),
            string_views(res@) =~= views(pieces@).take(k as int).map_values(|p: Seq<char>| trim(p)),
        decreases pieces.len() - k,
    {
        let ghost before = res@;
        let t = trim_chars(&pieces[k]);
        let item = string_of(&t);
        res.push(item);
        assert(string_views(res@) =~= string_views(before).push(trim(pieces@[k as int]@)));
        k += 1;
    }
    assert(views(pieces@).take(pieces.len() as int) =~= views(pieces@));
    res
}


// ------------------------------------------------------------------
// Keywords
// ------------------------------------------------------------------

/// Recognized keywords (cards) in the `.inp` file format.
#[derive(Debug, PartialEq, Eq, Clone, Copy, Structural)]
pub enum Keyword {
    Node,
    Element,
    Nset,
    Elset,
    Material,
    Elastic,
    Density,
    SolidSection,
    Step,
    Static,
    Boundary,
    Cload,
    EndStep,
    Heading,
    NodeFile,
    ElFile,
    Amplitude,
    Surface,
    Dload,
    Dsload,
    NodePrint,
    ElPrint,
    Include,
    BeamSection,
    Expansion,
    ShellSection,
    Conductivity,
    SpecificHeat,
    InitialConditions,
    Depvar,
}

/// The keyword whose name (in screaming snake case, e.g. `SOLID_SECTION`) is `s`.
pub open spec fn keyword_named(s: Seq<char>) -> Option<Keyword> {
    if s == "NODE"@ {
        Some(Keyword::Node)
    } else if s == "ELEMENT"@ {
        Some(Keyword::Element)
    } else if s == "NSET"@ {
        Some(Keyword::Nset)
    } else if s == "ELSET"@ {
        Some(Keyword::Elset)
    } else if s == "MATERIAL"@ {
        Some(Keyword::Material)
    } else if s == "ELASTIC"@ {
        Some(Keyword::Elastic)
    } else if s == "DENSITY"@ {
        Some(Keyword::Density)
    } else if s == "SOLID_SECTION"@ {
        Some(Keyword::SolidSection)
    } else if s == "STEP"@ {
        Some(Keyword::Step)
    } else if s == "STATIC"@ {
        Some(Keyword::Static)
    } else if s == "BOUNDARY"@ {
        Some(Keyword::Boundary)
    } else if s == "CLOAD"@ {
        Some(Keyword::Cload)
    } else if s == "END_STEP"@ {
        Some(Keyword::EndStep)
    } else if s == "HEADING"@ {
        Some(Keyword::Heading)
    } else if s == "NODE_FILE"@ {
        Some(Keyword::NodeFile)
    } else if s == "EL_FILE"@ {
        Some(Keyword::ElFile)
    } else if s == "AMPLITUDE"@ {
        Some(Keyword::Amplitude)
    } else if s == "SURFACE"@ {
        Some(Keyword::Surface)
    } else if s == "DLOAD"@ {
        Some(Keyword::Dload)
    } else if s == "DSLOAD"@ {
        Some(Keyword::Dsload)
    } else if s == "NODE_PRINT"@ {
        Some(Keyword::NodePrint)
    } else if s == "EL_PRINT"@ {
        Some(Keyword::ElPrint)
    } else if s == "INCLUDE"@ {
        Some(Keyword::Include)
    } else if s == "BEAM_SECTION"@ {
        Some(Keyword::BeamSection)
    } else if s == "EXPANSION"@ {
        Some(Keyword::Expansion)
    } else if s == "SHELL_SECTION"@ {
        Some(Keyword::ShellSection)
    } else if s == "CONDUCTIVITY"@ {
        Some(Keyword::Conductivity)
    } else if s == "SPECIFIC_HEAT"@ {
        Some(Keyword::SpecificHeat)
    } else if s == "INITIAL_CONDITIONS"@ {
        Some(Keyword::InitialConditions)
    } else if s == "DEPVAR"@ {
        Some(Keyword::Depvar)
    } else {
        None
    }
}

impl Keyword {
    /// The keyword named `name` (`SOLID_SECTION` for `Keyword::SolidSection`), if any.
    pub fn from_name(name: &Vec<char>) -> (res: Option<Keyword>)
        ensures
            res == keyword_named(name@),
    {
        if chars_eq(name, &chars_of("NODE")) {
            return Some(Keyword::Node);
        }
        if chars_eq(name, &chars_of("ELEMENT")) {
            return Some(Keyword::Element);
        }
        if chars_eq(name, &chars_of("NSET")) {
            return Some(Keyword::Nset);
        }
        if chars_eq(name, &chars_of("ELSET")) {
            return Some(Keyword::Elset);
        }
        if chars_eq(name, &chars_of("MATERIAL")) {
            return Some(Keyword::Material);
        }
        if chars_eq(name, &chars_of("ELASTIC")) {
            return Some(Keyword::Elastic);
        }
        if chars_eq(name, &chars_of("DENSITY")) {
            return Some(Keyword::Density);
        }
        if chars_eq(name, &chars_of("SOLID_SECTION")) {
            return Some(Keyword::SolidSection);
        }
        if chars_eq(name, &chars_of("STEP")) {
            return Some(Keyword::Step);
        }
        if chars_eq(name, &chars_of("STATIC")) {
            return Some(Keyword::Static);
        }
        if chars_eq(name, &chars_of("BOUNDARY")) {
            return Some(Keyword::Boundary);
        }
        if chars_eq(name, &chars_of("CLOAD")) {
            return Some(Keyword::Cload);
        }
        if chars_eq(name, &chars_of("END_STEP")) {
            return Some(Keyword::EndStep);
        }
        if chars_eq(name, &chars_of("HEADING")) {
            return Some(Keyword::Heading);
        }
        if chars_eq(name, &chars_of("NODE_FILE")) {
            return Some(Keyword::NodeFile);
        }
        if chars_eq(name, &chars_of("EL_FILE")) {
            return Some(Keyword::ElFile);
        }
        if chars_eq(name, &chars_of("AMPLITUDE")) {
            return Some(Keyword::Amplitude);
        }
        if chars_eq(name, &chars_of("SURFACE")) {
            return Some(Keyword::Surface);
        }
        if chars_eq(name, &chars_of("DLOAD")) {
            return Some(Keyword::Dload);
        }
        if chars_eq(name, &chars_of("DSLOAD")) {
            return Some(Keyword::Dsload);
        }
        if chars_eq(name, &chars_of("NODE_PRINT")) {
            return Some(Keyword::NodePrint);
        }
        if chars_eq(name, &chars_of("EL_PRINT")) {
            return Some(Keyword::ElPrint);
        }
        if chars_eq(name, &chars_of("INCLUDE")) {
            return Some(Keyword::Include);
        }
        if chars_eq(name, &chars_of("BEAM_SECTION")) {
            return Some(Keyword::BeamSection);
        }
        if chars_eq(name, &chars_of("EXPANSION")) {
            return Some(Keyword::Expansion);
        }
        if chars_eq(name, &chars_of("SHELL_SECTION")) {
            return Some(Keyword::ShellSection);
        }
        if chars_eq(name, &chars_of("CONDUCTIVITY")) {
            return Some(Keyword::Conductivity);
        }
        if chars_eq(name, &chars_of("SPECIFIC_HEAT")) {
            return Some(Keyword::SpecificHeat);
        }
        if chars_eq(name, &chars_of("INITIAL_CONDITIONS")) {
            return Some(Keyword::InitialConditions);
        }
        if chars_eq(name, &chars_of("DEPVAR")) {
            return Some(Keyword::Depvar);
        }
        None
    }
}


// ------------------------------------------------------------------
// The parser
// ------------------------------------------------------------------

/// The main parser for converting input file text into a `Project` model.
pub struct Parser<'a> {
    input: &'a InpFile,
    project: Project,
    materials: Vec<BaseMaterial>,
    current_keyword: Option<Keyword>,
    line_nr: usize,
    element_type: Option<String>,
    elset_name: Option<String>,
    set_name: Option<String>,
    is_generate: bool,
    current_step: Option<StaticStep>,
    step_counter: usize,
    step_loads: Vec<Load>,
    step_bcs: Vec<BoundaryCondition>,
    initial_condition_type: Option<String>,
}

impl<'a> View for Parser<'a> {
    type V = ParserModel;

    closed spec fn view(&self) -> ParserModel {
        ParserModel {
            project: self.project@,
            materials: material_views(self.materials@),
            keyword: self.current_keyword,
            line_nr: self.line_nr as nat,
            element_type: option_view(self.element_type),
            elset_name: option_view(self.elset_name),
            set_name: option_view(self.set_name),
            is_generate: self.is_generate,
            current_step: match self.current_step {
                Some(s) => Some(s@),
                None => None,
            },
            step_counter: self.step_counter as nat,
            step_loads: load_views(self.step_loads@),
            step_bcs: bc_views(self.step_bcs@),
            ic_type: option_view(self.initial_condition_type),
        }
    }
}

/// Why the parser stopped early.
enum Halt {
    Error(FerrixError),
    Panic,
}

impl View for Halt {
    type V = Stop;

    closed spec fn view(&self) -> Stop {
        match self {
            Halt::Error(e) => Stop::Error(e@),
            Halt::Panic => Stop::Panic,
        }
    }
}

/// An executable step ended as the model says: `Ok` with the state `after`,
/// or the same error.
pub open spec fn outcome_is(res: Result<(), FerrixError>, after: ParserModel, expected: Result<ParserModel, ErrorModel>) -> bool {
    match res {
        Ok(_) => expected == Ok::<ParserModel, ErrorModel>(after),
        Err(e) => expected == Err::<ParserModel, ErrorModel>(e@),
    }
}

/// An executable data line ended as the model says: `Ok` with the state
/// `after`, or the same error or panic.
spec fn step_outcome_is(res: Result<(), Halt>, after: ParserModel, expected: Result<ParserModel, Stop>) -> bool {
    match res {
        Ok(_) => expected == Ok::<ParserModel, Stop>(after),
        Err(h) => expected == Err::<ParserModel, Stop>(h@),
    }
}

/// Whether the literal reads as NaN.
fn nan_literal(s: &String) -> (res: bool)
    ensures
        res == is_nan_literal(s@),
{
    let c = chars_of(s.as_str());
    if c.len() > 0 && (c[0] == '+' || c[0] == '-') {
        let b = sub_chars(&c, 1, c.len());
        assert(b@ =~= s@.drop_first());
        eq_ignore_case_exec(&b, "nan")
    } else {
        eq_ignore_case_exec(&c, "nan")
    }
}

/// Whether appending a row with temperature `temp` to `rows` and sorting
/// them by temperature panics.
fn row_would_panic(rows: &Option<TemperatureDependentLUT>, temp: &String) -> (res: bool)
    ensures
        res == row_panics(lut_rows(*rows), temp@),
{
    match rows {
        None => false,
        Some(lut) => {
            if lut.data.len() == 0 {
                return false;
            }
            if nan_literal(temp) {
                return true;
            }
            let ghost r = row_views(lut.data@);
            let mut k: usize = 0;
            while k < lut.data.len()
                invariant
                    k <= lut.data.len(),
                    r == row_views(lut.data@),
                    lut_rows(*rows) == Some(r),
                    forall|q: int| 0 <= q < k ==> !is_nan_literal(#[trigger] r[q].0),
                decreases lut.data.len() - k,
            {
                assert(r[k as int].0 == lut.data@[k as int].0@);
                if nan_literal(&lut.data[k].0) {
                    assert(is_nan_literal(r[k as int].0));

                    return true;
                }
                k += 1;
            }
            false
        },
    }
}

/// `prefix` followed by `tail`.
fn joined(prefix: &str, tail: &str) -> (res: String)
    ensures
        res@ == prefix@ + tail@,
{
    let mut v = chars_of(prefix);
    let mut t = chars_of(tail);
    v.append(&mut t);
    string_of(&v)
}

/// A `ParseError` on line `line` whose message is `prefix` followed by `tail`.
fn parse_failure(line: usize, prefix: &str, tail: &str) -> (res: FerrixError)
    ensures
        res@ == parse_error(line as nat, prefix@ + tail@),
{
    FerrixError::ParseError { line, message: joined(prefix, tail) }
}

/// The trimmed comma-separated pieces of a line.
fn positional(line: &Vec<char>) -> (res: Vec<String>)
    ensures
        string_views(res@) == positional_arguments(line@),
{
    let pieces = split_chars(line, ',');
    trimmed_strings(&pieces)
}

/// Checks that `piece` is a float literal.
fn float_checked(line: usize, prefix: &str, piece: &String) -> (res: Result<(), FerrixError>)
    ensures
        match res {
            Ok(_) => float_or(line as nat, prefix@, piece@) == Ok::<Seq<char>, ErrorModel>(piece@),
            Err(e) => float_or(line as nat, prefix@, piece@) == Err::<Seq<char>, ErrorModel>(e@),
        },
{
    if is_float_literal_chars(&chars_of(piece.as_str())) {
        Ok(())
    } else if piece.as_str().is_empty() {
        Err(parse_failure(line, prefix, "cannot parse float from empty string"))
    } else {
        Err(parse_failure(line, prefix, "invalid float literal"))
    }
}

proof fn lemma_first_non_float_prefix(s: Seq<Seq<char>>, n: int)
    requires
        0 <= n <= s.len(),
        first_non_float(s.take(n)) is Some,
    ensures
        first_non_float(s) == first_non_float(s.take(n)),
    decreases s.len() - n,
{
    if n < s.len() {
        assert(s.take(n + 1).drop_last() =~= s.take(n));
        lemma_first_non_float_prefix(s, n + 1);
    } else {
        assert(s.take(n) =~= s);
    }
}

/// Checks that every piece is a float literal.
fn floats_checked(line: usize, prefix: &str, pieces: &Vec<String>) -> (res: Result<(), FerrixError>)
    ensures
        match res {
            Ok(_) => all_floats(line as nat, prefix@, string_views(pieces@)) is Ok,
            Err(e) => all_floats(line as nat, prefix@, string_views(pieces@)) == Err::<Seq<Seq<char>>, ErrorModel>(e@),
        },
{
    let ghost sv = string_views(pieces@);
    let mut k: usize = 0;
    while k < pieces.len()
        invariant
            k <= pieces.len(),
            sv == string_views(pieces@),
            first_non_float(sv.take(k as int)) is None,
        decreases pieces.len() - k,
    {
        assert(sv.take(k + 1).drop_last() =~= sv.take(k as int));
        match float_checked(line, prefix, &pieces[k]) {
            Ok(_) => {},
            Err(e) => {
                proof {
                    lemma_first_non_float_prefix(sv, k + 1);
                }
                return Err(e);
            },
        }
        k += 1;
    }
    assert(sv.take(k as int) =~= sv);
    Ok(())
}

/// A copy of an optional string.
fn clone_option(o: &Option<String>) -> (res: Option<String>)
    ensures
        option_view(res) == option_view(*o),
{
    match o {
        Some(s) => Some(s.clone()),
        None => None,
    }
}

/// A copy of a vector of identifiers.
fn copy_ids<T: Copy>(v: &Vec<T>) -> (res: Vec<T>)
    ensures
        res@ == v@,
{
    let mut res: Vec<T> = Vec::new();
    let mut k: usize = 0;
    while k < v.len()
        invariant
            k <= v.len(),
            res@ == v@.take(k as int),
        decreases v.len() - k,
    {
        res.push(v[k]);
        assert(v@.take(k + 1) =~= v@.take(k as int).push(v@[k as int]));
        k += 1;
    }
    assert(v@.take(k as int) =~= v@);
    res
}

/// Appends `ids` to the set `name` (creating it if missing).
fn append_ids<T: Copy>(sets: &mut NameMap<Vec<T>>, name: &String, ids: Vec<T>)
    ensures
        final(sets).map().map_values(|v: Vec<T>| v@) == with_appended(
            old(sets).map().map_values(|v: Vec<T>| v@),
            name@,
            ids@,
        ),
{
    let mut ids = ids;
    let mut cur = match sets.get(name.as_str()) {
        Some(v) => copy_ids(v),
        None => Vec::new(),
    };
    cur.append(&mut ids);
    let ghost c = cur@;
    sets.insert(name.clone(), cur);
    assert(final(sets).map().map_values(|v: Vec<T>| v@) =~= old(sets).map().map_values(|v: Vec<T>| v@).insert(name@, c));
}

/// `rows` with `(t, v)` appended (a missing table counts as empty).
fn push_row(rows: Option<TemperatureDependentLUT>, t: String, v: String) -> (res: Option<TemperatureDependentLUT>)
    ensures
        lut_rows(res) == add_row(lut_rows(rows), (t@, v@)),
{
    match rows {
        Some(lut) => {
            let mut data = lut.data;
            let ghost before = data@;
            data.push((t, v));
            assert(row_views(data@) =~= row_views(before).push((t@, v@)));
            Some(TemperatureDependentLUT::new(data))
        },
        None => {
            let mut data: Vec<(String, String)> = Vec::new();
            data.push((t, v));
            assert(row_views(data@) =~= seq![(t@, v@)]);
            Some(TemperatureDependentLUT::new(data))
        },
    }
}

/// The nodes a target names: a node set of that name, or else the node of
/// that number, or else none.
fn resolve(sets: &NameMap<Vec<NodeId>>, target: &String) -> (res: Vec<NodeId>)
    ensures
        res@ == resolve_target(sets.map().map_values(|v: Vec<NodeId>| v@), target@),
{
    match sets.get(target.as_str()) {
        Some(v) => copy_ids(v),
        None => match parse_usize_chars(&chars_of(target.as_str())) {
            Ok(id) => {
                let mut r: Vec<NodeId> = Vec::new();
                r.push(NodeId(id));
                assert(r@ =~= seq![NodeId(id)]);
                r
            },
            Err(_) => {
                let r: Vec<NodeId> = Vec::new();
                assert(r@ =~= Seq::<NodeId>::empty());
                r
            },
        },
    }
}

/// Sets the initial temperature `t` for each node in `nodes`.
fn set_temperatures(m: &mut HashMap<usize, String>, nodes: &Vec<NodeId>, t: &String)
    ensures
        final(m)@.map_values(|s: String| s@) == set_all(old(m)@.map_values(|s: String| s@), nodes@, t@),
{
    let mut k: usize = 0;
    while k < nodes.len()
        invariant
            k <= nodes.len(),
            m@.map_values(|s: String| s@) == set_all(old(m)@.map_values(|s: String| s@), nodes@.take(k as int), t@),
        decreases nodes.len() - k,
    {
        let ghost before = m@;
        m.insert(nodes[k].0, t.clone());
        assert(nodes@.take(k + 1).drop_last() =~= nodes@.take(k as int));
        assert(m@.map_values(|s: String| s@) =~= before.map_values(|s: String| s@).insert(nodes@[k as int].0, t@));
        k += 1;
    }
    assert(nodes@.take(k as int) =~= nodes@);
}

/// `start, start + step, ...` up to `end` inclusive.
fn stepped_numbers(start: usize, end: usize, step: usize) -> (res: Vec<usize>)
    requires
        step > 0,
    ensures
        res@ == stepped_range(start as int, end as int, step as nat),
{
    let mut res: Vec<usize> = Vec::new();
    if start > end {
        assert(res@ =~= stepped_range(start as int, end as int, step as nat));
        return res;
    }
    let mut cur = start;
    loop
        invariant
            step > 0,
            start <= cur <= end,
            res@ + stepped_range(cur as int, end as int, step as nat) == stepped_range(start as int, end as int, step as nat),
        decreases end - cur,
    {
        let ghost before = res@;
        res.push(cur);
        assert(stepped_range(cur as int, end as int, step as nat) == seq![cur] + stepped_range(cur + step, end as int, step as nat));
        assert(before + stepped_range(cur as int, end as int, step as nat) =~= res@ + stepped_range(cur + step, end as int, step as nat));
        if end - cur < step {
            assert(stepped_range(cur + step, end as int, step as nat) =~= Seq::<usize>::empty());
            assert(res@ =~= res@ + stepped_range(cur + step, end as int, step as nat));
            return res;
        }
        cur = cur + step;
    }
}

/// The number a piece stands for, or `default`.
fn number_or_default(piece: &String, default: usize) -> (res: usize)
    ensures
        res == number_or(piece@, default),
{
    match parse_usize_chars(&chars_of(piece.as_str())) {
        Ok(v) => v,
        Err(_) => default,
    }
}

/// The numbers among the pieces, in order.
fn listed(pieces: &Vec<String>) -> (res: Vec<usize>)
    ensures
        res@ == listed_numbers(string_views(pieces@)),
{
    let ghost sv = string_views(pieces@);
    let mut res: Vec<usize> = Vec::new();
    let mut k: usize = 0;
    while k < pieces.len()
        invariant
            k <= pieces.len(),
            sv == string_views(pieces@),
            res@ == listed_numbers(sv.take(k as int)),
        decreases pieces.len() - k,
    {
        assert(sv.take(k + 1).drop_last() =~= sv.take(k as int));
        match parse_usize_chars(&chars_of(pieces[k].as_str())) {
            Ok(v) => res.push(v),
            Err(_) => {},
        }
        k += 1;
    }
    assert(sv.take(k as int) =~= sv);
    res
}

fn node_ids_of(v: &Vec<usize>) -> (res: Vec<NodeId>)
    ensures
        res@ == v@.map_values(|x: usize| NodeId(x)),
{
    let mut res: Vec<NodeId> = Vec::new();
    let mut k: usize = 0;
    while k < v.len()
        invariant
            k <= v.len(),
            res@ == v@.take(k as int).map_values(|x: usize| NodeId(x)),
        decreases v.len() - k,
    {
        res.push(NodeId(v[k]));
        assert(v@.take(k + 1).map_values(|x: usize| NodeId(x)) =~= v@.take(k as int).map_values(|x: usize| NodeId(x)).push(NodeId(v@[k as int])));
        k += 1;
    }
    assert(v@.take(k as int) =~= v@);
    res
}

fn element_ids_of(v: &Vec<usize>) -> (res: Vec<ElementId>)
    ensures
        res@ == v@.map_values(|x: usize| ElementId(x)),
{
    let mut res: Vec<ElementId> = Vec::new();
    let mut k: usize = 0;
    while k < v.len()
        invariant
            k <= v.len(),
            res@ == v@.take(k as int).map_values(|x: usize| ElementId(x)),
        decreases v.len() - k,
    {
        res.push(ElementId(v[k]));
        assert(v@.take(k + 1).map_values(|x: usize| ElementId(x)) =~= v@.take(k as int).map_values(|x: usize| ElementId(x)).push(ElementId(v@[k as int])));
        k += 1;
    }
    assert(v@.take(k as int) =~= v@);
    res
}

proof fn lemma_nodal_entries_step(nodes: Seq<NodeId>, k: int, dofs: Seq<usize>, value: Seq<char>, amplitude: AmplitudeModel, origin: usize)
    requires
        0 <= k < nodes.len(),
    ensures
        nodal_entries(nodes.take(k + 1), dofs, value, amplitude, origin) == nodal_entries(nodes.take(k), dofs, value, amplitude, origin)
            + dofs.map_values(|d: usize| entry(nodes[k], d, value, amplitude, origin)),
{
    assert(nodes.take(k + 1).drop_last() =~= nodes.take(k));
}

/// The entries of `dof_span(first, last)` on one node, in order.
proof fn lemma_dof_span_entries(node: NodeId, first: usize, last: usize, value: Seq<char>, amplitude: AmplitudeModel, origin: usize)
    ensures
        dof_span(first, last).map_values(|d: usize| entry(node, d, value, amplitude, origin))
            == dof_if(first, last, 1).map_values(|d: usize| entry(node, d, value, amplitude, origin))
            + dof_if(first, last, 2).map_values(|d: usize| entry(node, d, value, amplitude, origin))
            + dof_if(first, last, 3).map_values(|d: usize| entry(node, d, value, amplitude, origin)),
{
    let f = |d: usize| entry(node, d, value, amplitude, origin);
    let a = dof_if(first, last, 1);
    let b = dof_if(first, last, 2);
    let c = dof_if(first, last, 3);
    assert((a + b + c).map_values(f) =~= a.map_values(f) + b.map_values(f) + c.map_values(f));
}

/// Why a step that may panic ended: `Ok` with the state `after`, or the same
/// stop.
spec fn halted_as(res: Result<(), Halt>, after: ParserModel, expected: Result<ParserModel, Stop>) -> bool {
    match res {
        Ok(_) => expected == Ok::<ParserModel, Stop>(after),
        Err(h) => expected == Err::<ParserModel, Stop>(h@),
    }
}

/// Appends one boundary condition on `node` per degree of freedom of
/// `dof_span(first, last)`.
fn push_bcs(
    out: &mut Vec<BoundaryCondition>,
    node: NodeId,
    first: usize,
    last: usize,
    value: &String,
    amplitude: &Option<Amplitude>,
    origin: usize,
)
    ensures
        bc_views(final(out)@) == bc_views(old(out)@) + dof_span(first, last).map_values(
            |d: usize| entry(node, d, value@, amplitude_or_default(*amplitude), origin),
        ),
{
    let ghost amp = amplitude_or_default(*amplitude);
    let ghost f = |d: usize| entry(node, d, value@, amp, origin);
    proof {
        lemma_dof_span_entries(node, first, last, value@, amp, origin);
    }
    let ghost v0 = bc_views(out@);
    let mut d: usize = 1;
    while d <= 3
        invariant
            1 <= d <= 4,
            amp == amplitude_or_default(*amplitude),
            f == (|d: usize| entry(node, d, value@, amp, origin)),
            bc_views(out@) == v0 + (if d > 1 { dof_if(first, last, 1).map_values(f) } else { Seq::empty() })
                + (if d > 2 { dof_if(first, last, 2).map_values(f) } else { Seq::empty() })
                + (if d > 3 { dof_if(first, last, 3).map_values(f) } else { Seq::empty() }),
        decreases 4 - d,
    {
        let ghost before = bc_views(out@);
        if first <= d && d <= last {
            let a = match amplitude {
                Some(a) => Some(a.clone()),
                None => None,
            };
            out.push(BoundaryCondition::new(node, d - 1, value.clone(), a, origin));
            assert(bc_views(out@) =~= before.push(f(d)));
            assert(dof_if(first, last, d).map_values(f) =~= seq![f(d)]);
        } else {
            assert(bc_views(out@) =~= before);
            assert(dof_if(first, last, d).map_values(f) =~= Seq::<NodalModel>::empty());
        }
        assert(bc_views(out@) =~= v0 + (if d + 1 > 1 { dof_if(first, last, 1).map_values(f) } else { Seq::empty() })
            + (if d + 1 > 2 { dof_if(first, last, 2).map_values(f) } else { Seq::empty() })
            + (if d + 1 > 3 { dof_if(first, last, 3).map_values(f) } else { Seq::empty() }));
        d += 1;
    }
    assert(bc_views(out@) =~= v0 + dof_span(first, last).map_values(f));
}

/// Appends one load on `node` per degree of freedom of `dof_span(first, last)`.
fn push_loads(
    out: &mut Vec<Load>,
    node: NodeId,
    first: usize,
    last: usize,
    value: &String,
    amplitude: &Option<Amplitude>,
    origin: usize,
)
    ensures
        load_views(final(out)@) == load_views(old(out)@) + dof_span(first, last).map_values(
            |d: usize| entry(node, d, value@, amplitude_or_default(*amplitude), origin),
        ),
{
    let ghost amp = amplitude_or_default(*amplitude);
    let ghost f = |d: usize| entry(node, d, value@, amp, origin);
    proof {
        lemma_dof_span_entries(node, first, last, value@, amp, origin);
    }
    let ghost v0 = load_views(out@);
    let mut d: usize = 1;
    while d <= 3
        invariant
            1 <= d <= 4,
            amp == amplitude_or_default(*amplitude),
            f == (|d: usize| entry(node, d, value@, amp, origin)),
            load_views(out@) == v0 + (if d > 1 { dof_if(first, last, 1).map_values(f) } else { Seq::empty() })
                + (if d > 2 { dof_if(first, last, 2).map_values(f) } else { Seq::empty() })
                + (if d > 3 { dof_if(first, last, 3).map_values(f) } else { Seq::empty() }),
        decreases 4 - d,
    {
        let ghost before = load_views(out@);
        if first <= d && d <= last {
            let a = match amplitude {
                Some(a) => Some(a.clone()),
                None => None,
            };
            out.push(Load::new(node, d - 1, value.clone(), a, origin));
            assert(load_views(out@) =~= before.push(f(d)));
            assert(dof_if(first, last, d).map_values(f) =~= seq![f(d)]);
        } else {
            assert(load_views(out@) =~= before);
            assert(dof_if(first, last, d).map_values(f) =~= Seq::<NodalModel>::empty());
        }
        assert(load_views(out@) =~= v0 + (if d + 1 > 1 { dof_if(first, last, 1).map_values(f) } else { Seq::empty() })
            + (if d + 1 > 2 { dof_if(first, last, 2).map_values(f) } else { Seq::empty() })
            + (if d + 1 > 3 { dof_if(first, last, 3).map_values(f) } else { Seq::empty() }));
        d += 1;
    }
    assert(load_views(out@) =~= v0 + dof_span(first, last).map_values(f));
}

/// The cards that consume the data lines after them.
enum CardKind {
    Nset,
    Elset,
    Boundary(Option<String>),
    Cload(Option<String>),
    NodeFile,
    ElFile,
}

impl View for CardKind {
    type V = Card;

    closed spec fn view(&self) -> Card {
        match self {
            CardKind::Nset => Card::Nset,
            CardKind::Elset => Card::Elset,
            CardKind::Boundary(a) => Card::Boundary(option_view(*a)),
            CardKind::Cload(a) => Card::Cload(option_view(*a)),
            CardKind::NodeFile => Card::NodeFile,
            CardKind::ElFile => Card::ElFile,
        }
    }
}

proof fn lemma_card_block_stops(ls: Seq<Seq<char>>, lo: int, k: int, hi: int, card: Card, st: ParserModel)
    requires
        lo <= k <= hi,
        card_block(ls, lo, k, card, st) is Err,
    ensures
        card_block(ls, lo, hi, card, st) == card_block(ls, lo, k, card, st),
    decreases hi - k,
{
    if k < hi {
        lemma_card_block_stops(ls, lo, k, hi - 1, card, st);
    }
}

proof fn lemma_amplitude_rows_stop(ls: Seq<Seq<char>>, lo: int, k: int, hi: int, line: nat)
    requires
        lo <= k <= hi,
        amplitude_rows(ls, lo, k, line) is Err,
    ensures
        amplitude_rows(ls, lo, hi, line) == amplitude_rows(ls, lo, k, line),
    decreases hi - k,
{
    if k < hi {
        lemma_amplitude_rows_stop(ls, lo, k, hi - 1, line);
    }
}

/// The first line at or after `k` that starts with `*`, or the end.
fn find_block_end(ls: &Vec<Vec<char>>, k: usize) -> (res: usize)
    ensures
        res == block_end(views(ls@), k as int),
        k <= res || k > ls.len(),
        res <= ls.len(),
{
    let ghost lv = views(ls@);
    proof {
        lemma_block_end(lv, k as int);
    }
    if k >= ls.len() {
        return ls.len();
    }
    let mut j = k;
    while j < ls.len()
        invariant
            k <= j <= ls.len(),
            lv == views(ls@),
            block_end(lv, j as int) == block_end(lv, k as int),
        decreases ls.len() - j,
    {
        assert(ls@[j as int]@ == lv[j as int]);
        if has_prefix(&ls[j], "*") {
            return j;
        }
        j += 1;
    }
    j
}

/// The trimmed, non-empty pieces at even (`parity` 0) or odd (1) positions.
fn alternate_pieces(pieces: &Vec<Vec<char>>, parity: usize) -> (res: Vec<String>)
    requires
        parity < 2,
    ensures
        string_views(res@) == alternate(views(pieces@), parity as int),
{
    let ghost pv = views(pieces@);
    let mut res: Vec<String> = Vec::new();
    let mut k: usize = 0;
    while k < pieces.len()
        invariant
            parity < 2,
            k <= pieces.len(),
            pv == views(pieces@),
            string_views(res@) == alternate(pv.take(k as int), parity as int),
        decreases pieces.len() - k,
    {
        assert(pv.take(k + 1).drop_last() =~= pv.take(k as int));
        assert(pieces@[k as int]@ == pv[k as int]);
        let t = trim_chars(&pieces[k]);
        if k % 2 == parity && t.len() > 0 {
            let ghost before = res@;
            res.push(string_of(&t));
            assert(string_views(res@) =~= string_views(before).push(t@));
        }
        k += 1;
    }
    assert(pv.take(k as int) =~= pv);
    res
}

/// A `ParseError` on line `line` with the given message.
fn failure(line: usize, message: &str) -> (res: FerrixError)
    ensures
        res@ == parse_error(line as nat, message@),
{
    FerrixError::ParseError { line, message: String::from_str(message) }
}

/// The value given for `key` among the arguments of a keyword line.
fn argument(args: &NameMap<Option<String>>, Ghost(line): Ghost<Seq<char>>, key: &str) -> (res: Option<String>)
    requires
        args.map().map_values(|o: Option<String>| option_view(o)) == keyword_arguments(line),
    ensures
        option_view(res) == keyword_value(line, key@),
{
    match args.get(key) {
        Some(v) => {
            assert(keyword_arguments(line)[key@] == option_view(*v));
            clone_option(v)
        },
        None => None,
    }
}

/// The keyword of a keyword line.
fn keyword_text_of(line: &Vec<char>) -> (res: Vec<char>)
    ensures
        res@ == keyword_text(line@),
{
    let pieces = split_chars(line, ',');
    proof {
        lemma_split_len(line@, ',');
    }
    let p0 = trim_chars(&pieces[0]);
    let name = if p0.len() > 0 && p0[0] == '*' {
        sub_chars(&p0, 1, p0.len())
    } else {
        Vec::new()
    };
    assert(name@ == (if p0@.len() > 0 && p0@[0] == '*' { p0@.drop_first() } else { Seq::<char>::empty() }));
    to_upper(&trim_chars(&name))
}

/// The shift of an amplitude: the value if it is a float literal, else `0`.
fn shift_value(v: Option<String>) -> (res: String)
    ensures
        res@ == shift_of(option_view(v)),
{
    match v {
        Some(s) => if is_float_literal_chars(&chars_of(s.as_str())) {
            s
        } else {
            String::from_str("0")
        },
        None => String::from_str("0"),
    }
}

/// Assigns material `v` to each element of `ids`.
fn assign_materials(m: &mut HashMap<usize, usize>, ids: &Vec<ElementId>, v: usize)
    ensures
        final(m)@ == assign_all(old(m)@, ids@, v),
{
    let mut k: usize = 0;
    while k < ids.len()
        invariant
            k <= ids.len(),
            m@ == assign_all(old(m)@, ids@.take(k as int), v),
        decreases ids.len() - k,
    {
        m.insert(ids[k].0, v);
        assert(ids@.take(k + 1).drop_last() =~= ids@.take(k as int));
        k += 1;
    }
    assert(ids@.take(k as int) =~= ids@);
}

proof fn lemma_material_index_prefix(ms: Seq<MaterialModel>, name: Seq<char>, n: int)
    requires
        0 <= n <= ms.len(),
        material_index(ms.take(n), name) is Some,
    ensures
        material_index(ms, name) == material_index(ms.take(n), name),
    decreases ms.len() - n,
{
    if n < ms.len() {
        assert(ms.take(n + 1).drop_last() =~= ms.take(n));
        lemma_material_index_prefix(ms, name, n + 1);
    } else {
        assert(ms.take(n) =~= ms);
    }
}

/// A card's result as the model says: the next line and the state `after`,
/// or the same stop.
spec fn card_done(res: Result<usize, Halt>, after: ParserModel, expected: Result<(ParserModel, int), Stop>) -> bool {
    match res {
        Ok(j) => expected == Ok::<(ParserModel, int), Stop>((after, j as int)),
        Err(h) => expected == Err::<(ParserModel, int), Stop>(h@),
    }
}

impl<'a> Parser<'a> {
    /// Creates a new `Parser` for the given input file.
    pub fn new(input: &'a InpFile) -> (res: Self)
        ensures
            res@ == start_state(empty_project()),
            res.input() == input,
    {
        let res = Parser {
            input,
            project: Project::new(),
            materials: Vec::new(),
            current_keyword: None,
            line_nr: 0,
            element_type: None,
            elset_name: None,
            set_name: None,
            is_generate: false,
            current_step: None,
            step_counter: 0,
            step_loads: Vec::new(),
            step_bcs: Vec::new(),
            initial_condition_type: None,
        };
        assert(res@.materials =~= Seq::<crate::solver::material::MaterialModel>::empty());
        assert(res@.step_loads =~= Seq::<crate::solver::step::boundary_conds::NodalModel>::empty());
        assert(res@.step_bcs =~= Seq::<crate::solver::step::boundary_conds::NodalModel>::empty());
        res
    }

    /// The input file being parsed.
    pub closed spec fn input(&self) -> &'a InpFile {
        self.input
    }

    fn parse_node(&mut self, line: &Vec<char>) -> (res: Result<(), FerrixError>)
        ensures
            outcome_is(res, final(self)@, node_data(old(self)@, line@)),
    {
        let s = string_of(line);
        match Node::parse_line(s.as_str()) {
            Some(node) => {
                let ghost n = node@;
                self.project.mesh.nodes.insert(node.id.0, node);
                assert(self.project.mesh@.nodes =~= old(self).project.mesh@.nodes.insert(n.id.0, n));
                Ok(())
            },
            None => Err(parse_failure(self.line_nr, "Invalid node definition: ", s.as_str())),
        }
    }

    /// Puts back the last material (taken with `pop`), changed.
    fn put_last_material(&mut self, m: BaseMaterial, Ghost(orig): Ghost<ParserModel>)
        requires
            orig.materials.len() > 0,
            old(self)@ == (ParserModel { materials: orig.materials.drop_last(), ..orig }),
        ensures
            final(self)@ == with_last_material(orig, m@),
    {
        let ghost before = self.materials@;
        self.materials.push(m);
        assert(material_views(self.materials@) =~= material_views(before).push(m@));
        assert(self@.materials =~= orig.materials.update(orig.materials.len() - 1, m@));
    }

    /// Takes the last material out.
    fn pop_material(&mut self) -> (m: BaseMaterial)
        requires
            old(self).materials.len() > 0,
        ensures
            m@ == old(self)@.materials.last(),
            final(self)@ == (ParserModel { materials: old(self)@.materials.drop_last(), ..old(self)@ }),
    {
        let ghost before = self.materials@;
        let m = self.materials.pop().unwrap();
        assert(material_views(self.materials@) =~= material_views(before).drop_last());
        m
    }

    fn parse_element(&mut self, line: &Vec<char>) -> (res: Result<(), FerrixError>)
        ensures
            outcome_is(res, final(self)@, element_data(old(self)@, line@)),
    {
        let t = match clone_option(&self.element_type) {
            Some(t) => t,
            None => {
                return Ok(());
            },
        };
        let s = string_of(line);
        let elem = match Element::parse_line(t.as_str(), s.as_str()) {
            Ok(e) => e,
            Err(e) => {
                return Err(e);
            },
        };
        let id = elem.get_id();
        let ghost e = elem@;
        match clone_option(&self.elset_name) {
            Some(n) => {
                if !n.as_str().is_empty() {
                    let mut ids: Vec<ElementId> = Vec::new();
                    ids.push(id);
                    assert(ids@ =~= seq![e.id]);
                    append_ids(&mut self.project.mesh.element_sets, &n, ids);
                }
            },
            None => {},
        }
        self.project.mesh.elements.insert(id.0, elem);
        assert(self.project.mesh@.elements =~= old(self).project.mesh@.elements.insert(e.id.0, e));
        Ok(())
    }

    fn parse_elastic(&mut self, line: &Vec<char>) -> (res: Result<(), Halt>)
        requires
            old(self)@.keyword == Some(Keyword::Elastic),
        ensures
            step_outcome_is(res, final(self)@, data_step(old(self)@, line@)),
    {
        if self.materials.len() == 0 {
            return Ok(());
        }
        let p = positional(line);
        match floats_checked(self.line_nr, "Invalid elastic constant: ", &p) {
            Ok(_) => {},
            Err(e) => {
                return Err(Halt::Error(e));
            },
        }
        if p.len() < 2 {
            return Ok(());
        }
        let ghost orig = self@;
        let temp = if p.len() >= 3 {
            p[2].clone()
        } else {
            String::from_str("0")
        };
        let mut m = self.pop_material();
        if row_would_panic(&m.youngs_modulus, &temp) || row_would_panic(&m.poisson_ratio, &temp) {
            return Err(Halt::Panic);
        }
        let y = m.youngs_modulus.take();
        m.youngs_modulus = push_row(y, temp.clone(), p[0].clone());
        let nu = m.poisson_ratio.take();
        m.poisson_ratio = push_row(nu, temp, p[1].clone());
        self.put_last_material(m, Ghost(orig));
        Ok(())
    }

    fn parse_density(&mut self, line: &Vec<char>) -> (res: Result<(), Halt>)
        requires
            old(self)@.keyword == Some(Keyword::Density),
        ensures
            step_outcome_is(res, final(self)@, data_step(old(self)@, line@)),
    {
        if self.materials.len() == 0 {
            return Ok(());
        }
        let p = positional(line);
        match floats_checked(self.line_nr, "Invalid density value: ", &p) {
            Ok(_) => {},
            Err(e) => {
                return Err(Halt::Error(e));
            },
        }
        if p.len() < 1 {
            return Ok(());
        }
        let ghost orig = self@;
        let temp = if p.len() >= 2 {
            p[1].clone()
        } else {
            String::from_str("0")
        };
        let mut m = self.pop_material();
        if row_would_panic(&m.density, &temp) {
            return Err(Halt::Panic);
        }
        let d = m.density.take();
        m.density = push_row(d, temp, p[0].clone());
        self.put_last_material(m, Ghost(orig));
        Ok(())
    }

    fn parse_expansion(&mut self, line: &Vec<char>) -> (res: Result<(), Halt>)
        requires
            old(self)@.keyword == Some(Keyword::Expansion),
        ensures
            step_outcome_is(res, final(self)@, data_step(old(self)@, line@)),
    {
        if self.materials.len() == 0 {
            return Ok(());
        }
        let p = positional(line);
        match floats_checked(self.line_nr, "Invalid expansion constant: ", &p) {
            Ok(_) => {},
            Err(e) => {
                return Err(Halt::Error(e));
            },
        }
        if p.len() < 1 {
            return Ok(());
        }
        let ghost orig = self@;
        let temp = if p.len() >= 2 {
            p[1].clone()
        } else {
            String::from_str("0")
        };
        let mut m = self.pop_material();
        if row_would_panic(&m.thermal_expansion, &temp) {
            return Err(Halt::Panic);
        }
        let a = m.thermal_expansion.take();
        m.thermal_expansion = push_row(a, temp, p[0].clone());
        self.put_last_material(m, Ghost(orig));
        Ok(())
    }

    fn parse_initial_conditions(&mut self, line: &Vec<char>) -> (res: Result<(), FerrixError>)
        ensures
            outcome_is(res, final(self)@, initial_conditions_data(old(self)@, line@)),
    {
        let is_temperature = match &self.initial_condition_type {
            Some(t) => str_eq(t.as_str(), "TEMPERATURE"),
            None => false,
        };
        if !is_temperature {
            return Ok(());
        }
        let p = positional(line);
        if p.len() < 2 {
            return Ok(());
        }
        match float_checked(self.line_nr, "Invalid temperature value: ", &p[1]) {
            Ok(_) => {},
            Err(e) => {
                return Err(e);
            },
        }
        let nodes = resolve(&self.project.mesh.node_sets, &p[0]);
        set_temperatures(&mut self.project.initial_temperatures, &nodes, &p[1]);
        Ok(())
    }

    fn parse_depvar(&mut self, line: &Vec<char>) -> (res: Result<(), FerrixError>)
        ensures
            outcome_is(res, final(self)@, depvar_data(old(self)@, line@)),
    {
        if self.materials.len() == 0 {
            return Ok(());
        }
        let p = positional(line);
        if p.len() < 1 {
            return Ok(());
        }
        let n = match parse_usize_chars(&chars_of(p[0].as_str())) {
            Ok(n) => n,
            Err(k) => {
                return Err(parse_failure(self.line_nr, "Invalid DEPVAR value: ", k.message().as_str()));
            },
        };
        let ghost orig = self@;
        let mut m = self.pop_material();
        m.num_depvars = n;
        self.put_last_material(m, Ghost(orig));
        Ok(())
    }

    /// A data line read under the current keyword.
    fn parse_data(&mut self, line: &Vec<char>) -> (res: Result<(), Halt>)
        ensures
            step_outcome_is(res, final(self)@, data_step(old(self)@, line@)),
    {
        let r = match self.current_keyword {
            Some(Keyword::Elastic) => {
                return self.parse_elastic(line);
            },
            Some(Keyword::Density) => {
                return self.parse_density(line);
            },
            Some(Keyword::Expansion) => {
                return self.parse_expansion(line);
            },
            Some(Keyword::Node) => self.parse_node(line),
            Some(Keyword::Element) => self.parse_element(line),
            Some(Keyword::InitialConditions) => self.parse_initial_conditions(line),
            Some(Keyword::Depvar) => self.parse_depvar(line),
            _ => Ok(()),
        };
        match r {
            Ok(_) => Ok(()),
            Err(e) => Err(Halt::Error(e)),
        }
    }

    /// The amplitude named `name`, if defined.
    fn amplitude_of(&self, name: &Option<String>) -> (res: Option<Amplitude>)
        ensures
            amplitude_or_default(res) == amplitude_named(self@, option_view(*name)),
    {
        match name {
            Some(n) => match self.project.amplitudes.get(n.as_str()) {
                Some(a) => Some(a.clone()),
                None => None,
            },
            None => None,
        }
    }

    /// The step a load or boundary condition defined now belongs to.
    fn origin(&self) -> (res: usize)
        ensures
            res == origin_step(self@),
    {
        if self.current_step.is_some() {
            self.step_counter
        } else {
            0
        }
    }

    fn parse_boundary(&mut self, line: &Vec<char>, amplitude: &Option<String>) -> (res: Result<(), FerrixError>)
        ensures
            outcome_is(res, final(self)@, boundary_line(old(self)@, line@, option_view(*amplitude))),
    {
        let p = positional(line);
        if p.len() < 2 {
            return Ok(());
        }
        let first = match parse_usize_chars(&chars_of(p[1].as_str())) {
            Ok(v) => v,
            Err(k) => {
                return Err(parse_failure(self.line_nr, "Invalid first DOF: ", k.message().as_str()));
            },
        };
        let last = if p.len() > 2 && !p[2].as_str().is_empty() {
            match parse_usize_chars(&chars_of(p[2].as_str())) {
                Ok(v) => v,
                Err(k) => {
                    return Err(parse_failure(self.line_nr, "Invalid last DOF: ", k.message().as_str()));
                },
            }
        } else {
            first
        };
        let value = if p.len() > 3 {
            match float_checked(self.line_nr, "Invalid boundary value: ", &p[3]) {
                Ok(_) => p[3].clone(),
                Err(e) => {
                    return Err(e);
                },
            }
        } else {
            String::from_str("0")
        };
        let nodes = resolve(&self.project.mesh.node_sets, &p[0]);
        let amp = self.amplitude_of(amplitude);
        let origin = self.origin();
        let ghost st = self@;
        let ghost dofs = dof_span(first, last);
        let mut bcs: Vec<BoundaryCondition> = Vec::new();
        let mut k: usize = 0;
        while k < nodes.len()
            invariant
                k <= nodes.len(),
                bc_views(bcs@) == nodal_entries(nodes@.take(k as int), dofs, value@, amplitude_or_default(amp), origin),
                dofs == dof_span(first, last),
            decreases nodes.len() - k,
        {
            proof {
                lemma_nodal_entries_step(nodes@, k as int, dofs, value@, amplitude_or_default(amp), origin);
            }
            push_bcs(&mut bcs, nodes[k], first, last, &value, &amp, origin);
            k += 1;
        }
        assert(nodes@.take(k as int) =~= nodes@);
        let ghost entries = bc_views(bcs@);
        if self.current_step.is_some() {
            let ghost before = self.step_bcs@;
            self.step_bcs.append(&mut bcs);
            assert(bc_views(self.step_bcs@) =~= bc_views(before) + entries);
        } else {
            let ghost before = self.project.initial_bcs@;
            self.project.initial_bcs.append(&mut bcs);
            assert(bc_views(self.project.initial_bcs@) =~= bc_views(before) + entries);
        }
        Ok(())
    }

    fn parse_cload(&mut self, line: &Vec<char>, amplitude: &Option<String>) -> (res: Result<(), FerrixError>)
        ensures
            outcome_is(res, final(self)@, cload_line(old(self)@, line@, option_view(*amplitude))),
    {
        let p = positional(line);
        if p.len() < 3 {
            return Ok(());
        }
        let dof = match parse_usize_chars(&chars_of(p[1].as_str())) {
            Ok(v) => v,
            Err(k) => {
                return Err(parse_failure(self.line_nr, "Invalid DOF: ", k.message().as_str()));
            },
        };
        match float_checked(self.line_nr, "Invalid load value: ", &p[2]) {
            Ok(_) => {},
            Err(e) => {
                return Err(e);
            },
        }
        let value = p[2].clone();
        let nodes = resolve(&self.project.mesh.node_sets, &p[0]);
        let amp = self.amplitude_of(amplitude);
        let origin = self.origin();
        let ghost dofs = dof_span(dof, dof);
        let mut loads: Vec<Load> = Vec::new();
        let mut k: usize = 0;
        while k < nodes.len()
            invariant
                k <= nodes.len(),
                load_views(loads@) == nodal_entries(nodes@.take(k as int), dofs, value@, amplitude_or_default(amp), origin),
                dofs == dof_span(dof, dof),
            decreases nodes.len() - k,
        {
            proof {
                lemma_nodal_entries_step(nodes@, k as int, dofs, value@, amplitude_or_default(amp), origin);
            }
            push_loads(&mut loads, nodes[k], dof, dof, &value, &amp, origin);
            k += 1;
        }
        assert(nodes@.take(k as int) =~= nodes@);
        let ghost entries = load_views(loads@);
        if self.current_step.is_some() {
            let ghost before = self.step_loads@;
            self.step_loads.append(&mut loads);
            assert(load_views(self.step_loads@) =~= load_views(before) + entries);
        } else {
            let ghost before = self.project.initial_loads@;
            self.project.initial_loads.append(&mut loads);
            assert(load_views(self.project.initial_loads@) =~= load_views(before) + entries);
        }
        Ok(())
    }

    fn parse_nset(&mut self, line: &Vec<char>) -> (res: Result<(), Halt>)
        ensures
            halted_as(res, final(self)@, nset_line(old(self)@, line@)),
    {
        let name = match clone_option(&self.set_name) {
            Some(n) => n,
            None => {
                return Ok(());
            },
        };
        let p = positional(line);
        if self.is_generate {
            if p.len() < 2 {
                return Ok(());
            }
            let step = if p.len() > 2 {
                number_or_default(&p[2], 1)
            } else {
                1
            };
            if step == 0 {
                return Err(Halt::Panic);
            }
            let start = number_or_default(&p[0], 0);
            let end = number_or_default(&p[1], 0);
            let nums = stepped_numbers(start, end, step);
            let ids = node_ids_of(&nums);
            append_ids(&mut self.project.mesh.node_sets, &name, ids);
        } else {
            let nums = listed(&p);
            let ids = node_ids_of(&nums);
            append_ids(&mut self.project.mesh.node_sets, &name, ids);
        }
        Ok(())
    }

    fn parse_elset(&mut self, line: &Vec<char>) -> (res: Result<(), Halt>)
        ensures
            halted_as(res, final(self)@, elset_line(old(self)@, line@)),
    {
        let name = match clone_option(&self.set_name) {
            Some(n) => n,
            None => {
                return Ok(());
            },
        };
        let p = positional(line);
        if self.is_generate {
            if p.len() < 2 {
                return Ok(());
            }
            let step = if p.len() > 2 {
                number_or_default(&p[2], 1)
            } else {
                1
            };
            if step == 0 {
                return Err(Halt::Panic);
            }
            let start = number_or_default(&p[0], 0);
            let end = number_or_default(&p[1], 0);
            let nums = stepped_numbers(start, end, step);
            let ids = element_ids_of(&nums);
            append_ids(&mut self.project.mesh.element_sets, &name, ids);
        } else {
            let nums = listed(&p);
            proof {
                lemma_find(line@, ',');
            }
            if find_char(line, ',').is_none() && nums.len() == 0 {
                let other = string_of(&trim_chars(line));
                match self.project.mesh.element_sets.get(other.as_str()) {
                    Some(v) => {
                        let ids = copy_ids(v);
                        append_ids(&mut self.project.mesh.element_sets, &name, ids);
                    },
                    None => {},
                }
            } else {
                let ids = element_ids_of(&nums);
                append_ids(&mut self.project.mesh.element_sets, &name, ids);
            }
        }
        Ok(())
    }

    /// A line of output variables (`*NODE FILE` or `*EL FILE`).
    fn parse_output(&mut self, line: &Vec<char>, nodal: bool)
        ensures
            final(self)@ == (if nodal {
                ParserModel {
                    project: ProjectModel {
                        nodal_output: old(self)@.project.nodal_output + positional_arguments(line@),
                        ..old(self)@.project
                    },
                    ..old(self)@
                }
            } else {
                ParserModel {
                    project: ProjectModel {
                        element_output: old(self)@.project.element_output + positional_arguments(line@),
                        ..old(self)@.project
                    },
                    ..old(self)@
                }
            }),
    {
        let mut p = positional(line);
        let ghost pv = string_views(p@);
        if nodal {
            let ghost before = self.project.nodal_output@;
            self.project.nodal_output.append(&mut p);
            assert(string_views(self.project.nodal_output@) =~= string_views(before) + pv);
        } else {
            let ghost before = self.project.element_output@;
            self.project.element_output.append(&mut p);
            assert(string_views(self.project.element_output@) =~= string_views(before) + pv);
        }
    }

    /// One line of a card's block.
    fn parse_card_line(&mut self, card: &CardKind, line: &Vec<char>) -> (res: Result<(), Halt>)
        ensures
            halted_as(res, final(self)@, card_line(card@, old(self)@, line@)),
    {
        match card {
            CardKind::Nset => self.parse_nset(line),
            CardKind::Elset => self.parse_elset(line),
            CardKind::Boundary(a) => match self.parse_boundary(line, a) {
                Ok(_) => Ok(()),
                Err(e) => Err(Halt::Error(e)),
            },
            CardKind::Cload(a) => match self.parse_cload(line, a) {
                Ok(_) => Ok(()),
                Err(e) => Err(Halt::Error(e)),
            },
            CardKind::NodeFile => {
                self.parse_output(line, true);
                Ok(())
            },
            CardKind::ElFile => {
                self.parse_output(line, false);
                Ok(())
            },
        }
    }

    /// Lines `lo..hi` of a card's block.
    fn parse_block(&mut self, ls: &Vec<Vec<char>>, lo: usize, hi: usize, card: &CardKind) -> (res: Result<(), Halt>)
        requires
            lo <= hi <= ls.len(),
        ensures
            halted_as(res, final(self)@, card_block(views(ls@), lo as int, hi as int, card@, old(self)@)),
    {
        let ghost lv = views(ls@);
        let ghost st0 = self@;
        let mut k = lo;
        while k < hi
            invariant
                lo <= k <= hi <= ls.len(),
                lv == views(ls@),
                st0 == old(self)@,
                card_block(lv, lo as int, k as int, card@, st0) == Ok::<ParserModel, Stop>(self@),
            decreases hi - k,
        {
            assert(ls@[k as int]@ == lv[k as int]);
            match self.parse_card_line(card, &ls[k]) {
                Ok(_) => {},
                Err(h) => {
                    assert(card_block(lv, lo as int, k + 1, card@, st0) == Err::<ParserModel, Stop>(h@));
                    proof {
                        lemma_card_block_stops(lv, lo as int, k + 1, hi as int, card@, st0);
                    }
                    return Err(h);
                },
            }
            k += 1;
        }
        Ok(())
    }

    /// The time and value columns of lines `lo..hi` of an `*AMPLITUDE` block.
    fn amplitude_columns(&self, ls: &Vec<Vec<char>>, lo: usize, hi: usize) -> (res: Result<(Vec<String>, Vec<String>), FerrixError>)
        requires
            lo <= hi <= ls.len(),
        ensures
            match res {
                Ok((t, v)) => amplitude_rows(views(ls@), lo as int, hi as int, self@.line_nr) == Ok::<(Seq<Seq<char>>, Seq<Seq<char>>), ErrorModel>((string_views(t@), string_views(v@))),
                Err(e) => amplitude_rows(views(ls@), lo as int, hi as int, self@.line_nr) == Err::<(Seq<Seq<char>>, Seq<Seq<char>>), ErrorModel>(e@),
            },
    {
        let ghost lv = views(ls@);
        let ghost line = self@.line_nr;
        let mut times: Vec<String> = Vec::new();
        let mut values: Vec<String> = Vec::new();
        assert(string_views(times@) =~= Seq::<Seq<char>>::empty());
        assert(string_views(values@) =~= Seq::<Seq<char>>::empty());
        let mut k = lo;
        while k < hi
            invariant
                lo <= k <= hi <= ls.len(),
                lv == views(ls@),
                line == self@.line_nr,
                line == self.line_nr as nat,
                amplitude_rows(lv, lo as int, k as int, line) == Ok::<(Seq<Seq<char>>, Seq<Seq<char>>), ErrorModel>((string_views(times@), string_views(values@))),
            decreases hi - k,
        {
            assert(ls@[k as int]@ == lv[k as int]);
            let pieces = split_chars(&ls[k], ',');
            let mut t = alternate_pieces(&pieces, 0);
            match floats_checked(self.line_nr, "Invalid amplitude time value: ", &t) {
                Ok(_) => {},
                Err(e) => {
                    proof {
                        lemma_amplitude_rows_stop(lv, lo as int, k + 1, hi as int, line);
                    }
                    return Err(e);
                },
            }
            let mut v = alternate_pieces(&pieces, 1);
            match floats_checked(self.line_nr, "Invalid amplitude value: ", &v) {
                Ok(_) => {},
                Err(e) => {
                    proof {
                        lemma_amplitude_rows_stop(lv, lo as int, k + 1, hi as int, line);
                    }
                    return Err(e);
                },
            }
            let ghost (t0, v0, t1, v1) = (times@, values@, t@, v@);
            times.append(&mut t);
            values.append(&mut v);
            assert(string_views(times@) =~= string_views(t0) + string_views(t1));
            assert(string_views(values@) =~= string_views(v0) + string_views(v1));
            k += 1;
        }
        Ok((times, values))
    }

    /// Ends the step being defined, if any.
    fn close_step(&mut self)
        ensures
            final(self)@ == close_step(old(self)@),
    {
        match self.current_step.take() {
            Some(step) => {
                let mut step = step;
                step.loads = clone_loads(&self.step_loads);
                step.bcs = clone_bcs(&self.step_bcs);
                let ghost before = self.project.steps@;
                self.project.steps.push(Step::StaticStep(step));
                assert(step_views(self.project.steps@) =~= step_views(before).push(step@));
            },
            None => {},
        }
    }

    /// The position of the first material named `name`.
    fn material_position(&self, name: &String) -> (res: Option<usize>)
        ensures
            match res {
                Some(k) => material_index(self@.materials, name@) == Some(k as nat),
                None => material_index(self@.materials, name@) is None,
            },
    {
        let ghost ms = self@.materials;
        let mut k: usize = 0;
        while k < self.materials.len()
            invariant
                k <= self.materials.len(),
                ms == self@.materials,
                ms.len() == self.materials.len(),
                material_index(ms.take(k as int), name@) is None,
            decreases self.materials.len() - k,
        {
            assert(ms.take(k + 1).drop_last() =~= ms.take(k as int));
            assert(ms[k as int] == self.materials@[k as int]@);
            if str_eq(self.materials[k].name.as_str(), name.as_str()) {
                proof {
                    lemma_material_index_prefix(ms, name@, k + 1);
                }
                return Some(k);
            }
            k += 1;
        }
        assert(ms.take(k as int) =~= ms);
        None
    }

    fn parse_step(&mut self, ls: &Vec<Vec<char>>, i: usize) -> (res: Result<usize, Halt>)
        requires
            i < ls.len(),
            old(self).step_counter < usize::MAX,
        ensures
            card_done(res, final(self)@, step_card(views(ls@), i as int, old(self)@)),
            final(self).step_counter == old(self).step_counter + 1,
    {
        let ghost lv = views(ls@);
        assert(ls@[i as int]@ == lv[i as int]);
        if self.step_counter == 0 {
            self.step_loads = clone_loads(&self.project.initial_loads);
            self.step_bcs = clone_bcs(&self.project.initial_bcs);
        }
        self.step_counter = self.step_counter + 1;
        self.close_step();
        let text = string_of(&ls[i]);
        let args = get_keyword_arguments(text.as_str());
        let nlgeom = args.contains_key("NLGEOM");
        let max_iterations = match argument(&args, Ghost(lv[i as int]), "INC") {
            Some(v) => number_or_default(&v, 10000),
            None => 10000,
        };
        if i + 1 < ls.len() && has_prefix(&ls[i + 1], "*STATIC") {
            assert(ls@[i + 1]@ == lv[i + 1]);
            let next_text = string_of(&ls[i + 1]);
            let static_args = get_keyword_arguments(next_text.as_str());
            let solver = match argument(&static_args, Ghost(lv[i + 1]), "SOLVER") {
                None => SolverType::Default,
                Some(s) => if str_eq(s.as_str(), "DIRECT") {
                    SolverType::Direct
                } else if str_eq(s.as_str(), "ITERATIVE") {
                    SolverType::Iterative
                } else {
                    return Err(Halt::Error(FerrixError::UnknownSolver(s)));
                },
            };
            let mut increment = IncrementData::default();
            increment.max_iterations = max_iterations;
            let mut next = i + 2;
            if i + 2 < ls.len() && !has_prefix(&ls[i + 2], "*") {
                assert(ls@[i + 2]@ == lv[i + 2]);
                let p = positional(&ls[i + 2]);
                if p.len() >= 4 {
                    match float_checked(self.line_nr, "Invalid initial time increment: ", &p[0]) {
                        Ok(_) => {},
                        Err(e) => {
                            return Err(Halt::Error(e));
                        },
                    }
                    match float_checked(self.line_nr, "Invalid time period: ", &p[1]) {
                        Ok(_) => {},
                        Err(e) => {
                            return Err(Halt::Error(e));
                        },
                    }
                    match float_checked(self.line_nr, "Invalid min time increment: ", &p[2]) {
                        Ok(_) => {},
                        Err(e) => {
                            return Err(Halt::Error(e));
                        },
                    }
                    match float_checked(self.line_nr, "Invalid max time increment: ", &p[3]) {
                        Ok(_) => {},
                        Err(e) => {
                            return Err(Halt::Error(e));
                        },
                    }
                    increment.initial_time_increment = p[0].clone();
                    increment.time_period = p[1].clone();
                    increment.min_time_increment = p[2].clone();
                    increment.max_time_increment = p[3].clone();
                }
                next = i + 3;
            }
            let step = StaticStep {
                solver,
                increment_data: increment,
                loads: Vec::new(),
                bcs: Vec::new(),
                nlgeom,
            };
            assert(step@.loads =~= Seq::<NodalModel>::empty());
            assert(step@.bcs =~= Seq::<NodalModel>::empty());
            self.current_step = Some(step);
            Ok(next)
        } else {
            Ok(i + 1)
        }
    }

    fn parse_material(&mut self, line: &Vec<char>) -> (res: Result<(), FerrixError>)
        ensures
            outcome_is(res, final(self)@, material_card(line@, old(self)@)),
    {
        let text = string_of(line);
        let args = get_keyword_arguments(text.as_str());
        let name = match argument(&args, Ghost(line@), "NAME") {
            Some(n) => n,
            None => {
                return Err(failure(self.line_nr, "Material name not found"));
            },
        };
        let m = BaseMaterial {
            name,
            density: None,
            youngs_modulus: None,
            poisson_ratio: None,
            thermal_expansion: None,
            reference_temperature: String::from_str("0"),
            num_depvars: 0,
        };
        let ghost before = self.materials@;
        self.materials.push(m);
        assert(material_views(self.materials@) =~= material_views(before).push(m@));
        Ok(())
    }

    fn parse_expansion_card(&mut self, line: &Vec<char>) -> (res: Result<(), FerrixError>)
        ensures
            outcome_is(res, final(self)@, expansion_card(line@, old(self)@)),
    {
        if self.materials.len() == 0 {
            return Ok(());
        }
        let text = string_of(line);
        let args = get_keyword_arguments(text.as_str());
        match argument(&args, Ghost(line@), "ZERO") {
            Some(z) => {
                match float_checked(self.line_nr, "Invalid ZERO value in *EXPANSION: ", &z) {
                    Ok(_) => {},
                    Err(e) => {
                        return Err(e);
                    },
                }
                let ghost orig = self@;
                let mut m = self.pop_material();
                m.reference_temperature = z;
                self.put_last_material(m, Ghost(orig));
                Ok(())
            },
            None => Ok(()),
        }
    }

    fn parse_solid_section(&mut self, line: &Vec<char>) -> (res: Result<(), FerrixError>)
        ensures
            outcome_is(res, final(self)@, solid_section_card(line@, old(self)@)),
    {
        let text = string_of(line);
        let args = get_keyword_arguments(text.as_str());
        let elset = match argument(&args, Ghost(line@), "ELSET") {
            Some(e) => e,
            None => {
                return Err(failure(self.line_nr, "Elset not found in *SOLID SECTION"));
            },
        };
        let material = match argument(&args, Ghost(line@), "MATERIAL") {
            Some(m) => m,
            None => {
                return Err(failure(self.line_nr, "Material not found in *SOLID SECTION"));
            },
        };
        let index = match self.material_position(&material) {
            Some(k) => k,
            None => {
                return Err(FerrixError::MaterialNotFound(material));
            },
        };
        let ids = match self.project.mesh.element_sets.get(elset.as_str()) {
            Some(v) => copy_ids(v),
            None => {
                return Err(FerrixError::ElsetNotFound(elset));
            },
        };
        assign_materials(&mut self.project.element_materials, &ids, index);
        Ok(())
    }

    fn parse_amplitude(&mut self, ls: &Vec<Vec<char>>, i: usize, end: usize) -> (res: Result<(), FerrixError>)
        requires
            i < end <= ls.len(),
        ensures
            outcome_is(res, final(self)@, amplitude_card(views(ls@), i as int, end as int, old(self)@)),
    {
        let ghost lv = views(ls@);
        assert(ls@[i as int]@ == lv[i as int]);
        let text = string_of(&ls[i]);
        let args = get_keyword_arguments(text.as_str());
        let name = match argument(&args, Ghost(lv[i as int]), "NAME") {
            Some(n) => n,
            None => {
                return Err(failure(self.line_nr, "Amplitude card is missing a Name= argument"));
            },
        };
        let total_time = match argument(&args, Ghost(lv[i as int]), "TIME") {
            Some(v) => str_eq(v.as_str(), "TOTAL TIME"),
            None => false,
        };
        let shift_x = shift_value(argument(&args, Ghost(lv[i as int]), "SHIFTX"));
        let shift_y = shift_value(argument(&args, Ghost(lv[i as int]), "SHIFTY"));
        let (t, v) = match self.amplitude_columns(ls, i + 1, end) {
            Ok(c) => c,
            Err(e) => {
                return Err(e);
            },
        };
        let a = Amplitude { total_time, shift_x, shift_y, data: Some(TimeSeries(t, v)) };
        let ghost av = a@;
        let ghost before = self.project.amplitudes.map();
        self.project.amplitudes.insert(name, a);
        assert(self.project.amplitudes.map().map_values(|a: Amplitude| a@) =~= before.map_values(|a: Amplitude| a@).insert(name@, av));
        Ok(())
    }

    /// The keyword card on line `i`.
    fn parse_keyword(&mut self, ls: &Vec<Vec<char>>, i: usize) -> (res: Result<usize, Halt>)
        requires
            i < ls.len(),
            old(self).step_counter < usize::MAX,
        ensures
            card_done(res, final(self)@, keyword_card(views(ls@), i as int, old(self)@)),
    {
        let ghost lv = views(ls@);
        let ghost line = lv[i as int];
        assert(ls@[i as int]@ == line);
        let name = keyword_text_of(&ls[i]);
        let keyword = match Keyword::from_name(&replace_char_chars(&name, ' ', '_')) {
            Some(k) => k,
            None => {
                return Err(Halt::Error(FerrixError::UnsupportedKeyword { line: self.line_nr, keyword: string_of(&name) }));
            },
        };
        self.current_keyword = Some(keyword);
        let text = string_of(&ls[i]);
        let args = get_keyword_arguments(text.as_str());
        match keyword {
            Keyword::Element => {
                self.element_type = argument(&args, Ghost(line), "TYPE");
                self.elset_name = argument(&args, Ghost(line), "ELSET");
                Ok(i + 1)
            },
            Keyword::Nset | Keyword::Elset => {
                self.set_name = if keyword == Keyword::Nset {
                    argument(&args, Ghost(line), "NSET")
                } else {
                    argument(&args, Ghost(line), "ELSET")
                };
                self.is_generate = args.contains_key("GENERATE");
                let end = find_block_end(ls, i + 1);
                let card = if keyword == Keyword::Nset {
                    CardKind::Nset
                } else {
                    CardKind::Elset
                };
                match self.parse_block(ls, i + 1, end, &card) {
                    Ok(_) => Ok(end),
                    Err(h) => Err(h),
                }
            },
            Keyword::Material => match self.parse_material(&ls[i]) {
                Ok(_) => Ok(i + 1),
                Err(e) => Err(Halt::Error(e)),
            },
            Keyword::Expansion => match self.parse_expansion_card(&ls[i]) {
                Ok(_) => Ok(i + 1),
                Err(e) => Err(Halt::Error(e)),
            },
            Keyword::InitialConditions => {
                self.initial_condition_type = match argument(&args, Ghost(line), "TYPE") {
                    Some(t) => Some(string_of(&to_upper(&chars_of(t.as_str())))),
                    None => None,
                };
                Ok(i + 1)
            },
            Keyword::SolidSection => match self.parse_solid_section(&ls[i]) {
                Ok(_) => Ok(i + 1),
                Err(e) => Err(Halt::Error(e)),
            },
            Keyword::Step => self.parse_step(ls, i),
            Keyword::EndStep => {
                self.close_step();
                Ok(i + 1)
            },
            Keyword::Amplitude => {
                let end = find_block_end(ls, i + 1);
                match self.parse_amplitude(ls, i, end) {
                    Ok(_) => Ok(end),
                    Err(e) => Err(Halt::Error(e)),
                }
            },
            Keyword::Boundary | Keyword::Cload => {
                let amplitude = argument(&args, Ghost(line), "AMPLITUDE");
                let op_new = match argument(&args, Ghost(line), "OP") {
                    Some(o) => str_eq(o.as_str(), "NEW"),
                    None => false,
                };
                let boundary = keyword == Keyword::Boundary;
                if op_new {
                    if boundary {
                        if self.current_step.is_some() {
                            self.step_bcs = Vec::new();
                        } else {
                            self.project.initial_bcs = Vec::new();
                        }
                    } else {
                        if self.current_step.is_some() {
                            self.step_loads = Vec::new();
                        } else {
                            self.project.initial_loads = Vec::new();
                        }
                    }
                }
                proof {
                    assert(bc_views(Seq::<BoundaryCondition>::empty()) =~= Seq::<NodalModel>::empty());
                    assert(load_views(Seq::<Load>::empty()) =~= Seq::<NodalModel>::empty());
                }
                let end = find_block_end(ls, i + 1);
                let card = if boundary {
                    CardKind::Boundary(amplitude)
                } else {
                    CardKind::Cload(amplitude)
                };
                match self.parse_block(ls, i + 1, end, &card) {
                    Ok(_) => Ok(end),
                    Err(h) => Err(h),
                }
            },
            Keyword::NodeFile | Keyword::ElFile => {
                let end = find_block_end(ls, i + 1);
                let card = if keyword == Keyword::NodeFile {
                    CardKind::NodeFile
                } else {
                    CardKind::ElFile
                };
                match self.parse_block(ls, i + 1, end, &card) {
                    Ok(_) => Ok(end),
                    Err(h) => Err(h),
                }
            },
            _ => Ok(i + 1),
        }
    }

    /// Reads all lines of the deck.
    fn read_lines(&mut self, ls: &Vec<Vec<char>>) -> (res: Result<(), Halt>)
        requires
            old(self)@.step_counter == 0,
        ensures
            match res {
                Ok(_) => run(views(ls@), 0, old(self)@) == Ok::<ParserModel, Stop>(final(self)@),
                Err(h) => run(views(ls@), 0, old(self)@) == Err::<ParserModel, Stop>(h@),
            },
    {
        let ghost lv = views(ls@);
        let ghost st0 = self@;
        let mut k: usize = 0;
        while k < ls.len()
            invariant
                k <= ls.len(),
                lv == views(ls@),
                st0 == old(self)@,
                run(lv, 0, st0) == run(lv, k as int, self@),
                self@.step_counter <= k,
            decreases ls.len() - k,
        {
            assert(ls@[k as int]@ == lv[k as int]);
            self.line_nr = k + 1;
            if has_prefix(&ls[k], "*") {
                proof {
                    lemma_keyword_card_advances(lv, k as int, self@);
                }
                match self.parse_keyword(ls, k) {
                    Ok(j) => {
                        k = j;
                    },
                    Err(h) => {
                        return Err(h);
                    },
                }
            } else {
                let t = trim_chars(&ls[k]);
                if t.len() > 0 && self.current_keyword.is_some() {
                    proof {
                        lemma_data_line_counter(self@, t@);
                    }
                    match self.parse_data(&t) {
                        Ok(_) => {},
                        Err(h) => {
                            return Err(h);
                        },
                    }
                }
                k += 1;
            }
        }
        Ok(())
    }

    /// Reads the deck and builds the project.
    fn build(self) -> (res: Result<Project, Halt>)
        requires
            self@.step_counter == 0,
        ensures
            match res {
                Ok(p) => deck_outcome(self.input().0@, self@) matches Ok(st) && p@ == finished(st) && numbering_of(
                    p@.mesh.nodes.dom(),
                    p.mesh.index_to_node_id@,
                    p.mesh.node_id_to_index@,
                ),
                Err(h) => deck_outcome(self.input().0@, self@) == Err::<ParserModel, Stop>(h@),
            },
    {
        let mut parser = self;
        let text = chars_of(parser.input.0.as_str());
        let ls = lines_of(&text);
        match parser.read_lines(&ls) {
            Ok(_) => {},
            Err(h) => {
                return Err(h);
            },
        }
        let ghost st = parser@;
        parser.close_step();
        let mut materials = Vec::new();
        std::mem::swap(&mut materials, &mut parser.materials);
        let ghost before = parser.project.materials@;
        parser.project.materials.append(&mut materials);
        assert(material_views(parser.project.materials@) =~= material_views(before) + st.materials);
        let mut project = parser.project;
        assert(project@ == finished(st));
        let ghost nodes = project.mesh.nodes@;
        project.mesh.build_node_mappings();
        assert(project@ == finished(st));
        assert(project@.mesh.nodes.dom() =~= nodes.dom());
        Ok(project)
    }

    /// Parses the input file and returns a `Project`.
    ///
    /// The deck must not make the parser panic (`deck_panics`); only a line
    /// whose third piece reads as 0 (a `GENERATE` increment of 0) or a line
    /// with a piece that reads as NaN (a NaN temperature in a material table
    /// of two rows or more) can (`law_when_the_parser_panics`).
    /// `parse_checked` takes any deck.
    ///
    /// # Errors
    /// Returns `FerrixError` if parsing fails due to syntax errors or unsupported features.
    pub fn parse(self) -> (res: Result<Project, FerrixError>)
        requires
            self@.step_counter == 0,
            !deck_panics(self.input().0@, self@),
        ensures
            match res {
                Ok(p) => deck_outcome(self.input().0@, self@) matches Ok(st) && p@ == finished(st) && numbering_of(
                    p@.mesh.nodes.dom(),
                    p.mesh.index_to_node_id@,
                    p.mesh.node_id_to_index@,
                ),
                Err(e) => deck_outcome(self.input().0@, self@) == Err::<ParserModel, Stop>(Stop::Error(e@)),
            },
    {
        match self.build() {
            Ok(p) => Ok(p),
            Err(Halt::Error(e)) => Err(e),
            Err(Halt::Panic) => {
                assert(false);
                Err(FerrixError::Generic(String::new()))
            },
        }
    }

    /// Parses the input file, returning `None` where the deck would make the
    /// parser panic (a `GENERATE` line with an increment of 0).
    pub fn parse_checked(self) -> (res: Option<Result<Project, FerrixError>>)
        requires
            self@.step_counter == 0,
        ensures
            match res {
                None => deck_panics(self.input().0@, self@),
                Some(Ok(p)) => deck_outcome(self.input().0@, self@) matches Ok(st) && p@ == finished(st)
                    && numbering_of(p@.mesh.nodes.dom(), p.mesh.index_to_node_id@, p.mesh.node_id_to_index@),
                Some(Err(e)) => deck_outcome(self.input().0@, self@) == Err::<ParserModel, Stop>(Stop::Error(e@)),
            },
    {
        match self.build() {
            Ok(p) => Some(Ok(p)),
            Err(Halt::Error(e)) => Some(Err(e)),
            Err(Halt::Panic) => None,
        }
    }
}

} // verus!
