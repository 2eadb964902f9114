//! Helper functions for parsing INP input files.
use crate::solver::parser::{
    law_merged_text_without_solver_names, lemma_comma_end, merge_state, merged_text,
    no_solver_names,
};
use crate::text::{
    ascii_upper, chars_of, ends_with, has_prefix, has_suffix, is_ascii_text, lemma_upper_ascii,
    lemma_ascii_upper_char, lemma_lines_ascii, lemma_trim, lines, lines_of, starts_with, string_of,
    to_upper, trim, trim_chars, upper, views,
};
use vstd::prelude::*;

verus! {

/// The text that one input line contributes: nothing for a blank line;
/// otherwise the trimmed, uppercased line followed by a space if it ends with
/// `,` and by a newline if not; nothing if that text starts with `**`.
pub open spec fn line_piece(line: Seq<char>) -> Seq<char> {
    let t = trim(line);
    if t.len() == 0 {
        Seq::empty()
    } else {
        let u = upper(t);
        let v = if ends_with(u, ","@) {
            u.push(' ')
        } else {
            u.push('\n')
        };
        if starts_with(v, "**"@) {
            Seq::empty()
        } else {
            v
        }
    }
}

/// The preprocessed text: the pieces of all lines, concatenated.
pub open spec fn joined_pieces(input: Seq<char>) -> Seq<char> {
    lines(input).map_values(|l: Seq<char>| line_piece(l)).flatten_alt()
}

/// Computes `line_piece` for one line.
pub fn piece_of_line(line: &Vec<char>) -> (res: Vec<char>)
    ensures
        res@ == line_piece(line@),
{
    let t = trim_chars(line);
    if t.len() == 0 {
        return Vec::new();
    }
    let mut u = to_upper(&t);
    proof {
        reveal_strlit(",");
        reveal_strlit("**");
    }
    if has_suffix(&u, ",") {
        u.push(' ');
    } else {
        u.push('\n');
    }
    if has_prefix(&u, "**") {
        Vec::new()
    } else {
        u
    }
}

/// This preprocess includes:
/// - removing leading and trailing whitespaces
/// - removing comments
/// - making all text uppercase
/// - merging lines that belong together (`,` at the end of line)
/// - removes empty lines
pub fn preprocess_inp(input_file: &str) -> (res: String)
    ensures
        res@ == joined_pieces(input_file@),
        comment_marks_kept(input_file@) && merge_state(lines(input_file@)).1.len() == 0 ==> res@
            == merged_text(input_file@),
{
    let s = chars_of(input_file);
    let ls = lines_of(&s);
    let ghost pieces = lines(input_file@).map_values(|l: Seq<char>| line_piece(l));
    let mut out: Vec<char> = Vec::new();
    let mut k: usize = 0;
    while k < ls.len()
        invariant
            k <= ls.len(),
            views(ls@) == lines(input_file@),
            pieces == lines(input_file@).map_values(|l: Seq<char>| line_piece(l)),
            out@ == pieces.take(k as int).flatten_alt(),
        decreases ls.len() - k,
    {
        assert(pieces.take(k + 1).drop_last() =~= pieces.take(k as int));
        assert(ls@[k as int]@ == lines(input_file@)[k as int]);
        let mut p = piece_of_line(&ls[k]);
        out.append(&mut p);
        k += 1;
    }
    assert(pieces.take(ls.len() as int) =~= pieces);
    proof {
        if comment_marks_kept(input_file@) && merge_state(lines(input_file@)).1.len() == 0 {
            law_preprocessors_agree(input_file@);
        }
    }
    string_of(&out)
}

/// Uppercasing the trimmed line `t` keeps its comment mark: `t` starts with
/// `**` exactly when its uppercase, followed by a space or a newline, does.
pub open spec fn mark_kept(t: Seq<char>) -> bool {
    t.len() > 0 ==> {
        &&& starts_with(upper(t).push(' '), "**"@) == starts_with(t, "**"@)
        &&& starts_with(upper(t).push('\n'), "**"@) == starts_with(t, "**"@)
    }
}

/// Uppercasing keeps the comment mark of every line of `input`.
pub open spec fn comment_marks_kept(input: Seq<char>) -> bool {
    forall|i: int| 0 <= i < lines(input).len() ==> mark_kept(trim(#[trigger] lines(input)[i]))
}

/// The pending line `c` of the normalisation as this preprocessor has
/// already written it: followed by a space, or nothing if there is none.
spec fn pending_piece(c: Seq<char>) -> Seq<char> {
    if c.len() > 0 {
        c.push(' ')
    } else {
        Seq::empty()
    }
}

proof fn lemma_pieces_merge(ls: Seq<Seq<char>>)
    requires
        forall|i: int| 0 <= i < ls.len() ==> mark_kept(trim(#[trigger] ls[i])),
    ensures
        ls.map_values(|l: Seq<char>| line_piece(l)).flatten_alt() == merge_state(ls).0 + pending_piece(
            merge_state(ls).1,
        ),
    decreases ls.len(),
{
    if ls.len() > 0 {
        let init = ls.drop_last();
        assert forall|i: int| 0 <= i < init.len() implies mark_kept(trim(#[trigger] init[i])) by {
            assert(init[i] == ls[i]);
        }
        lemma_pieces_merge(init);
        let pieces = ls.map_values(|l: Seq<char>| line_piece(l));
        assert(pieces.drop_last() =~= init.map_values(|l: Seq<char>| line_piece(l)));
        let st = merge_state(init);
        let l = ls.last();
        assert(mark_kept(trim(ls[ls.len() - 1])));
        let t = trim(l);
        reveal_strlit("**");
        reveal_strlit(",");
        if t.len() == 0 {
            assert(pieces.last() =~= Seq::<char>::empty());
        } else if starts_with(t, "**"@) {
            assert(line_piece(l) =~= Seq::<char>::empty());
            assert(pieces.last() =~= Seq::<char>::empty());
        } else {
            let u = upper(t);
            assert(pieces.last() == line_piece(l));
            if ends_with(u, ","@) {
                assert(line_piece(l) == u.push(' '));
                if st.1.len() > 0 {
                    assert(st.0 + st.1.push(' ') + u.push(' ') =~= st.0 + (st.1.push(' ') + u).push(' '));
                } else {
                    assert(st.0 + Seq::<char>::empty() + u.push(' ') =~= st.0 + u.push(' '));
                }
            } else {
                assert(line_piece(l) == u.push('\n'));
                if st.1.len() > 0 {
                    assert(st.0 + st.1.push(' ') + u.push('\n') =~= st.0 + (st.1.push(' ') + u).push('\n')
                        + Seq::<char>::empty());
                } else {
                    assert(st.0 + Seq::<char>::empty() + u.push('\n') =~= st.0 + u.push('\n')
                        + Seq::<char>::empty());
                }
            }
        }
    }
}

/// The two preprocessors of a deck agree: where uppercasing keeps every
/// line's comment mark (as on every ASCII deck) and the last kept line does
/// not end with `,` (the normalisation leaves no line pending), the text that
/// this preprocessor joins equals the normalised text of
/// `solver::parser::preprocess_inp`, which gives that text itself where no
/// solver name of another program occurs in it.
pub proof fn law_preprocessors_agree(input: Seq<char>)
    requires
        comment_marks_kept(input),
        merge_state(lines(input)).1.len() == 0,
    ensures
        joined_pieces(input) == merged_text(input),
{
    let ls = lines(input);
    assert forall|i: int| 0 <= i < ls.len() implies mark_kept(trim(#[trigger] ls[i])) by {
        assert(mark_kept(trim(lines(input)[i])));
    }
    lemma_pieces_merge(ls);
    assert(merge_state(ls).0 + pending_piece(merge_state(ls).1) =~= merge_state(ls).0);
}

/// On an ASCII deck, uppercasing keeps every line's comment mark.
pub proof fn law_ascii_marks_kept(input: Seq<char>)
    requires
        forall|i: int| 0 <= i < lines(input).len() ==> is_ascii_text(trim(#[trigger] lines(input)[i])),
    ensures
        comment_marks_kept(input),
{
    reveal_strlit("**");
    assert forall|i: int| 0 <= i < lines(input).len() implies mark_kept(trim(#[trigger] lines(input)[i])) by {
        let t = trim(lines(input)[i]);
        if t.len() > 0 {
            assert(is_ascii_text(t));
            lemma_upper_ascii(t);
            let u = upper(t);
            assert(u.len() == t.len());
            assert(u[0] == ascii_upper(t[0]));
            assert((t[0] as u32) < 128);
            assert(ascii_upper(t[0]) == '*' <==> t[0] == '*') by {
                if 'a' <= t[0] && t[0] <= 'z' {
                    assert(((t[0] as u32) - 32) as char != '*');
                }
            }
            if t.len() > 1 {
                assert(u[1] == ascii_upper(t[1]));
                assert((t[1] as u32) < 128);
                assert(ascii_upper(t[1]) == '*' <==> t[1] == '*') by {
                    if 'a' <= t[1] && t[1] <= 'z' {
                        assert(((t[1] as u32) - 32) as char != '*');
                    }
                }
                assert(u.push(' ').take(2) =~= seq![u[0], u[1]]);
                assert(u.push('\n').take(2) =~= seq![u[0], u[1]]);
                assert(t.take(2) =~= seq![t[0], t[1]]);
            } else {
                assert(u.push(' ').take(2) =~= seq![u[0], ' ']);
                assert(u.push('\n').take(2) =~= seq![u[0], '\n']);
            }
        }
    }
}

/// The last line of `ls` that the normalisation keeps (not blank, not a
/// comment), trimmed.
pub open spec fn last_kept(ls: Seq<Seq<char>>) -> Option<Seq<char>>
    decreases ls.len(),
{
    if ls.len() == 0 {
        None
    } else if trim(ls.last()).len() > 0 && !starts_with(trim(ls.last()), "**"@) {
        Some(trim(ls.last()))
    } else {
        last_kept(ls.drop_last())
    }
}

proof fn lemma_pending_last_kept(ls: Seq<Seq<char>>)
    ensures
        merge_state(ls).1.len() > 0 ==> (last_kept(ls) matches Some(t) && ends_with(upper(t), ","@)),
    decreases ls.len(),
{
    if ls.len() > 0 {
        lemma_pending_last_kept(ls.drop_last());
        let t = trim(ls.last());
        if t.len() > 0 && !starts_with(t, "**"@) {
            lemma_comma_end(upper(t));
        }
    }
}

/// The two preprocessors agree on an ASCII deck whose last kept line does
/// not end with `,` and none of whose lines, uppercased, holds a solver name
/// of another program: this preprocessor's text is the normalised text of
/// `solver::parser::preprocess_inp`, which holds no solver name, so that
/// `preprocess_inp` returns it unchanged.
pub proof fn law_preprocessors_agree_on_ascii_decks(input: Seq<char>)
    requires
        is_ascii_text(input),
        last_kept(lines(input)) matches Some(t) ==> !ends_with(t, ","@),
        forall|i: int| 0 <= i < lines(input).len() ==> no_solver_names(upper(#[trigger] lines(input)[i])),
    ensures
        joined_pieces(input) == merged_text(input),
        no_solver_names(merged_text(input)),
{
    let ls = lines(input);
    lemma_lines_ascii(input);
    assert forall|i: int| 0 <= i < ls.len() implies is_ascii_text(trim(#[trigger] ls[i])) by {
        let l = ls[i];
        lemma_trim(l);
        let (lo, hi) = choose|lo: int, hi: int| 0 <= lo <= hi <= l.len() && #[trigger] l.subrange(lo, hi) == trim(l);
        assert forall|k: int| 0 <= k < trim(l).len() implies (#[trigger] trim(l)[k] as u32) < 128 by {
            assert(trim(l)[k] == l[lo + k]);
        }
    }
    law_ascii_marks_kept(input);
    lemma_pending_last_kept(ls);
    if merge_state(ls).1.len() > 0 {
        let t = last_kept(ls)->0;
        lemma_last_kept_ascii(ls);
        lemma_upper_ascii(t);
        lemma_comma_end(upper(t));
        lemma_comma_end(t);
        lemma_ascii_upper_char(t[t.len() - 1]);
        assert(upper(t)[upper(t).len() - 1] == ascii_upper(t[t.len() - 1]));
    }
    law_preprocessors_agree(input);
    law_merged_text_without_solver_names(input);
}

proof fn lemma_last_kept_ascii(ls: Seq<Seq<char>>)
    requires
        forall|i: int| 0 <= i < ls.len() ==> is_ascii_text(trim(#[trigger] ls[i])),
    ensures
        last_kept(ls) matches Some(t) ==> is_ascii_text(t) && t.len() > 0,
    decreases ls.len(),
{
    if ls.len() > 0 {
        let init = ls.drop_last();
        assert forall|i: int| 0 <= i < init.len() implies is_ascii_text(trim(#[trigger] init[i])) by {
            assert(init[i] == ls[i]);
        }
        lemma_last_kept_ascii(init);
        assert(is_ascii_text(trim(ls[ls.len() - 1])));
    }
}

} // verus!
