//! What reading a deck does with each kind of line, stated over the pieces of
//! the lines and the state before and after.
use crate::solver::amplitude::default_amplitude;
use crate::solver::deck::{
    amplitude_card, block_end, boundary_line, boundary_reset, card_block, cload_line, cload_reset,
    density_data, depvar_data, dof_span, elastic_data, entry, expansion_card, expansion_data,
    initial_conditions_data, keyword_card, keyword_text, lemma_block_end, material_card, nodal_entries,
    solid_section_card, step_card, Card, ParserModel,
};
use crate::solver::material::MaterialModel;
use crate::solver::deck::{
    assign_all, elset_line, listed_numbers, material_index, nset_line, number_or, resolve_target, set_all,
    stepped_range, element_data, node_data, close_step, alternate, amplitude_rows, Stop,
};
use crate::solver::parser::{arguments_map, keyword_argument, keyword_arguments};
use crate::text::{split_once, upper};
use crate::solver::ids::ElementId;
use crate::solver::increment::default_increment;
use crate::solver::solvers::SolverType;
use crate::solver::step::static_step::StepModel;
use crate::solver::amplitude::AmplitudeModel;
use crate::solver::step::boundary_conds::NodalModel;
use crate::solver::ids::NodeId;
use crate::solver::mesh_lib::elements::element::{element_of_line, element_type_named, ElementType};
use crate::solver::mesh_lib::node::node_of_line;
use crate::solver::parser::{
    keyword_named, keyword_value, positional_arguments, Keyword,
};
use crate::text::{
    all_numbers, is_float_literal, number_at, parse_usize, replace_char, split, starts_with, trim,
};
use vstd::prelude::*;

verus! {

/// A node line `ID, X, Y, Z` gives the node numbered `ID` whose coordinates
/// are the second, third and fourth trimmed pieces of the line, in that
/// order; a line gives a node exactly when it has these four pieces, `ID` a
/// number and the coordinates float literals.
pub proof fn law_node_line(line: Seq<char>)
    ensures
        ({
            let p = positional_arguments(line);
            node_of_line(line) is Some <==> (p.len() == 4 && parse_usize(p[0]) is Ok
                && is_float_literal(p[1]) && is_float_literal(p[2]) && is_float_literal(p[3]))
        }),
        node_of_line(line) matches Some(n) ==> ({
            let p = positional_arguments(line);
            &&& parse_usize(p[0]) == Ok::<usize, crate::text::IntErrorKind>(n.id.0)
            &&& n.x == p[1]
            &&& n.y == p[2]
            &&& n.z == p[3]
        }),
{
}

/// An element line `ID, N1, ..., Nk` read for the type named `t` gives the
/// element numbered `ID` of that type whose nodes are exactly `N1, ..., Nk`,
/// in the order of the line, `k` being the node count of the type (4, 6, 10
/// or 20).
pub proof fn law_element_line(t: Seq<char>, line: Seq<char>)
    ensures
        element_of_line(t, line) matches Ok(e) ==> ({
            let p = split(line, ',');
            &&& p.len() == e.nodes.len() + 1
            &&& parse_usize(trim(p[0])) == Ok::<usize, crate::text::IntErrorKind>(e.id.0)
            &&& forall|k: int|
                0 <= k < e.nodes.len() ==> parse_usize(trim(p[k + 1]))
                    == Ok::<usize, crate::text::IntErrorKind>(#[trigger] e.nodes[k].0)
            &&& (t == "C3D4"@ ==> e.kind == ElementType::C3D4 && e.nodes.len() == 4)
            &&& (t == "C3D6"@ ==> e.kind == ElementType::C3D6 && e.nodes.len() == 6)
            &&& (t == "C3D10"@ ==> e.kind == ElementType::C3D10 && e.nodes.len() == 10)
            &&& (t == "C3D20"@ ==> e.kind == ElementType::C3D20 && e.nodes.len() == 20)
        }),
{
    if element_of_line(t, line) is Ok {
        let e = element_of_line(t, line)->Ok_0;
        let p = split(line, ',');
        assert(all_numbers(line));
        crate::text::lemma_split_len(line, ',');
        assert(parse_usize(trim(p[0])) is Ok);
        assert(p.len() == e.nodes.len() + 1);
        assert forall|k: int| 0 <= k < e.nodes.len() implies parse_usize(trim(p[k + 1]))
            == Ok::<usize, crate::text::IntErrorKind>(#[trigger] e.nodes[k].0) by {
            assert(parse_usize(trim(p[k + 1])) is Ok);
            assert(e.nodes[k] == NodeId(number_at(line, k + 1)));
        }
        assert(element_type_named(t) == Some(e.kind));
        reveal_strlit("C3D4");
        reveal_strlit("C3D6");
        reveal_strlit("C3D10");
        reveal_strlit("C3D20");
        assert(parse_usize(trim(p[0])) == Ok::<usize, crate::text::IntErrorKind>(e.id.0));
        assert(t == "C3D4"@ ==> e.kind == ElementType::C3D4 && e.nodes.len() == 4);
        if t == "C3D6"@ {
            assert(t[3] != "C3D4"@[3]);
        }
        if t == "C3D20"@ {
            assert(t[3] != "C3D10"@[3]);
            assert(t.len() != "C3D4"@.len());
        }
        assert(t == "C3D6"@ ==> e.kind == ElementType::C3D6 && e.nodes.len() == 6);
        assert(t == "C3D10"@ ==> e.kind == ElementType::C3D10 && e.nodes.len() == 10);
        assert(t == "C3D20"@ ==> e.kind == ElementType::C3D20 && e.nodes.len() == 20);
        assert(e.nodes.len() == e.kind.spec_node_count());
    }
}

/// An `*AMPLITUDE, NAME=N` card stores under `N` an amplitude that runs on
/// total time exactly when `TIME=TOTAL TIME` is given, holds a table, and
/// whose shifts are the `SHIFTX=` and `SHIFTY=` values where they are float
/// literals and 0 otherwise (as `f64::from_str(..).unwrap_or_default()`);
/// the other amplitudes stay as they were.
pub proof fn law_amplitude_card(ls: Seq<Seq<char>>, i: int, end: int, st: ParserModel)
    requires
        0 <= i < ls.len(),
    ensures
        amplitude_card(ls, i, end, st) matches Ok(s) ==> ({
            let line = ls[i];
            &&& keyword_value(line, "NAME"@) is Some
            &&& s.project.amplitudes.contains_key(keyword_value(line, "NAME"@)->0)
            &&& {
                let a = s.project.amplitudes[keyword_value(line, "NAME"@)->0];
                &&& a.total_time == (keyword_value(line, "TIME"@) == Some("TOTAL TIME"@))
                &&& a.data is Some
                &&& amplitude_rows(ls, i + 1, end, st.line_nr) matches Ok(r) && a.data == Some(r)
                &&& (keyword_value(line, "SHIFTX"@) matches Some(v) ==> a.shift_x == (if is_float_literal(v) {
                    v
                } else {
                    default_amplitude().shift_x
                }))
                &&& (keyword_value(line, "SHIFTY"@) matches Some(v) ==> a.shift_y == (if is_float_literal(v) {
                    v
                } else {
                    default_amplitude().shift_y
                }))
                &&& (keyword_value(line, "SHIFTX"@) is None ==> a.shift_x == default_amplitude().shift_x)
                &&& (keyword_value(line, "SHIFTY"@) is None ==> a.shift_y == default_amplitude().shift_y)
            }
            &&& forall|n: Seq<char>|
                n != keyword_value(line, "NAME"@)->0 ==> s.project.amplitudes.contains_key(n)
                    == st.project.amplitudes.contains_key(n) && s.project.amplitudes[n]
                    == st.project.amplitudes[n]
        }),
{
}

/// The boundary conditions in force: those of the step being defined, or
/// the initial ones before the first step.
pub open spec fn bcs_in_force(st: ParserModel) -> Seq<NodalModel> {
    if st.current_step is Some {
        st.step_bcs
    } else {
        st.project.initial_bcs
    }
}

/// The loads in force: those of the step being defined, or the initial ones
/// before the first step.
pub open spec fn loads_in_force(st: ParserModel) -> Seq<NodalModel> {
    if st.current_step is Some {
        st.step_loads
    } else {
        st.project.initial_loads
    }
}

/// The entry has the amplitude defined under the name `amp` in `st`, or the
/// default ramp where `amp` is not given or names no amplitude.
pub open spec fn amplitude_carried(b: NodalModel, st: ParserModel, amp: Option<Seq<char>>) -> bool {
    &&& (amp matches Some(a) ==> b.amplitude == (if st.project.amplitudes.contains_key(a) {
        st.project.amplitudes[a]
    } else {
        default_amplitude()
    }))
    &&& (amp is None ==> b.amplitude == default_amplitude())
}

/// What an entry read from a `*BOUNDARY` or `*CLOAD` line under the card
/// option `AMPLITUDE=amp` holds whatever its node and degree of freedom: the
/// amplitude defined under that name before (else the default ramp), the
/// value, and the step it was defined in (0 before the first step).
pub open spec fn entry_carries(b: NodalModel, st: ParserModel, amp: Option<Seq<char>>, value: Seq<char>) -> bool {
    &&& amplitude_carried(b, st, amp)
    &&& b.value == value
    &&& b.origin_step == (if st.current_step is Some { st.step_counter as usize } else { 0usize })
}

/// The entry is for a node that the target names: a node of the node set of
/// that name, else the node with that number.
pub open spec fn node_targeted(b: NodalModel, st: ParserModel, target: Seq<char>) -> bool {
    &&& (st.project.mesh.node_sets.contains_key(target) ==> st.project.mesh.node_sets[target].contains(
        b.node_id,
    ))
    &&& (!st.project.mesh.node_sets.contains_key(target) ==> parse_usize(target) == Ok::<
        usize,
        crate::text::IntErrorKind,
    >(b.node_id.0))
}

proof fn lemma_entries_fields(
    nodes: Seq<NodeId>,
    dofs: Seq<usize>,
    value: Seq<char>,
    amplitude: AmplitudeModel,
    origin: usize,
)
    requires
        forall|k: int| 0 <= k < dofs.len() ==> #[trigger] dofs[k] >= 1,
    ensures
        forall|k: int|
            0 <= k < nodal_entries(nodes, dofs, value, amplitude, origin).len() ==> {
                let b = #[trigger] nodal_entries(nodes, dofs, value, amplitude, origin)[k];
                &&& b.value == value
                &&& b.amplitude == amplitude
                &&& b.origin_step == origin
                &&& nodes.contains(b.node_id)
                &&& exists|j: int| 0 <= j < dofs.len() && dofs[j] == b.dof + 1
            },
    decreases nodes.len(),
{
    if nodes.len() > 0 {
        let init = nodes.drop_last();
        lemma_entries_fields(init, dofs, value, amplitude, origin);
        let a = nodal_entries(init, dofs, value, amplitude, origin);
        let m = dofs.map_values(|d: usize| entry(nodes.last(), d, value, amplitude, origin));
        let e = nodal_entries(nodes, dofs, value, amplitude, origin);
        assert(e == a + m);
        assert forall|k: int| 0 <= k < e.len() implies {
            let b = #[trigger] e[k];
            &&& b.value == value
            &&& b.amplitude == amplitude
            &&& b.origin_step == origin
            &&& nodes.contains(b.node_id)
            &&& exists|j: int| 0 <= j < dofs.len() && dofs[j] == b.dof + 1
        } by {
            if k < a.len() {
                assert(e[k] == a[k]);
                assert(init.contains(a[k].node_id));
                let j = choose|j: int| 0 <= j < init.len() && init[j] == a[k].node_id;
                assert(nodes[j] == init[j]);
            } else {
                let q = k - a.len();
                assert(e[k] == m[q]);
                assert(dofs[q] >= 1);
                assert(nodes[nodes.len() - 1] == nodes.last());
                assert(m[q].dof + 1 == dofs[q]);
            }
        }
    }
}

proof fn lemma_dof_span(first: usize, last: usize)
    ensures
        forall|k: int| 0 <= k < dof_span(first, last).len() ==> {
            let d = #[trigger] dof_span(first, last)[k];
            1 <= d <= 3 && first <= d <= last
        },
{
}

/// A `*BOUNDARY` line `TARGET, FIRST[, LAST[, VALUE]]` read under the card
/// option `AMPLITUDE=amp` keeps the boundary conditions in force and appends
/// to them conditions for nodes that `TARGET` names, with degrees of freedom
/// from `FIRST` to `LAST` (`FIRST` alone if `LAST` is not given) among the
/// three of a node, the value `VALUE` (0 if not given), and the amplitude
/// defined as `amp` before (else the default ramp). A line of fewer than two
/// pieces changes nothing.
pub proof fn law_boundary_line(st: ParserModel, line: Seq<char>, amp: Option<Seq<char>>)
    ensures
        boundary_line(st, line, amp) matches Ok(s) ==> ({
            let p = positional_arguments(line);
            let before = bcs_in_force(st);
            let after = bcs_in_force(s);
            &&& s.current_step == st.current_step
            &&& s.project.amplitudes == st.project.amplitudes
            &&& s.project.initial_loads == st.project.initial_loads
            &&& s.step_loads == st.step_loads
            &&& (st.current_step is Some ==> s.project.initial_bcs == st.project.initial_bcs)
            &&& (st.current_step is None ==> s.step_bcs == st.step_bcs)
            &&& after.len() >= before.len()
            &&& after.take(before.len() as int) == before
            &&& (p.len() < 2 ==> s == st)
            &&& forall|k: int|
                before.len() <= k < after.len() ==> {
                    let b = #[trigger] after[k];
                    &&& entry_carries(b, st, amp, if p.len() > 3 { p[3] } else { "0"@ })
                    &&& node_targeted(b, st, p[0])
                    &&& 1 <= b.dof + 1 <= 3
                    &&& parse_usize(p[1]) is Ok
                    &&& parse_usize(p[1])->Ok_0 <= b.dof + 1
                    &&& (p.len() > 2 && p[2].len() > 0 ==> parse_usize(p[2]) is Ok && b.dof + 1
                        <= parse_usize(p[2])->Ok_0)
                    &&& (!(p.len() > 2 && p[2].len() > 0) ==> b.dof + 1 == parse_usize(p[1])->Ok_0)
                }
        }),
{
    if boundary_line(st, line, amp) is Ok {
        let s = boundary_line(st, line, amp)->Ok_0;
        let p = positional_arguments(line);
        if p.len() >= 2 {
            let first = parse_usize(p[1])->Ok_0;
            let last = if p.len() > 2 && p[2].len() > 0 { parse_usize(p[2])->Ok_0 } else { first };
            let v = if p.len() > 3 { p[3] } else { "0"@ };
            let nodes = crate::solver::deck::resolve_target(st.project.mesh.node_sets, p[0]);
            let a = crate::solver::deck::amplitude_named(st, amp);
            let o = crate::solver::deck::origin_step(st);
            lemma_dof_span(first, last);
            lemma_entries_fields(nodes, dof_span(first, last), v, a, o);
            let e = nodal_entries(nodes, dof_span(first, last), v, a, o);
            let before = bcs_in_force(st);
            let after = bcs_in_force(s);
            assert(after == before + e);
            assert(after.take(before.len() as int) =~= before);
            assert forall|k: int| before.len() <= k < after.len() implies node_targeted(#[trigger] after[k], st, p[0]) && 1 <= after[k].dof + 1 <= 3 && first <= after[k].dof + 1 <= last by {
                let b = after[k];
                assert(b == e[k - before.len()]);
                let j = choose|j: int| 0 <= j < dof_span(first, last).len() && dof_span(first, last)[j] == b.dof + 1;
                if !st.project.mesh.node_sets.contains_key(p[0]) {
                    assert(nodes.contains(b.node_id));
                }
            }
        }
    }
}

/// A `*CLOAD` line `TARGET, DOF, VALUE` read under the card option
/// `AMPLITUDE=amp` keeps the loads in force and appends to them loads for
/// nodes that `TARGET` names, on degree of freedom `DOF` (if it is one of the
/// three of a node), with the value `VALUE` and the amplitude defined as
/// `amp` before (else the default ramp). A line of fewer than three pieces
/// changes nothing.
pub proof fn law_cload_line(st: ParserModel, line: Seq<char>, amp: Option<Seq<char>>)
    ensures
        cload_line(st, line, amp) matches Ok(s) ==> ({
            let p = positional_arguments(line);
            let before = loads_in_force(st);
            let after = loads_in_force(s);
            &&& s.current_step == st.current_step
            &&& s.project.amplitudes == st.project.amplitudes
            &&& s.project.initial_bcs == st.project.initial_bcs
            &&& s.step_bcs == st.step_bcs
            &&& (st.current_step is Some ==> s.project.initial_loads == st.project.initial_loads)
            &&& (st.current_step is None ==> s.step_loads == st.step_loads)
            &&& after.len() >= before.len()
            &&& after.take(before.len() as int) == before
            &&& (p.len() < 3 ==> s == st)
            &&& forall|k: int|
                before.len() <= k < after.len() ==> {
                    let b = #[trigger] after[k];
                    &&& entry_carries(b, st, amp, p[2])
                    &&& node_targeted(b, st, p[0])
                    &&& 1 <= b.dof + 1 <= 3
                    &&& parse_usize(p[1]) is Ok
                    &&& parse_usize(p[1])->Ok_0 == b.dof + 1
                }
        }),
{
    if cload_line(st, line, amp) is Ok {
        let s = cload_line(st, line, amp)->Ok_0;
        let p = positional_arguments(line);
        if p.len() >= 3 {
            let d = parse_usize(p[1])->Ok_0;
            let v = p[2];
            let nodes = crate::solver::deck::resolve_target(st.project.mesh.node_sets, p[0]);
            let a = crate::solver::deck::amplitude_named(st, amp);
            let o = crate::solver::deck::origin_step(st);
            lemma_dof_span(d, d);
            lemma_entries_fields(nodes, dof_span(d, d), v, a, o);
            let e = nodal_entries(nodes, dof_span(d, d), v, a, o);
            let before = loads_in_force(st);
            let after = loads_in_force(s);
            assert(after == before + e);
            assert(after.take(before.len() as int) =~= before);
            assert forall|k: int| before.len() <= k < after.len() implies node_targeted(#[trigger] after[k], st, p[0]) && 1 <= after[k].dof + 1 <= 3 && after[k].dof + 1 == d by {
                let b = after[k];
                assert(b == e[k - before.len()]);
                let j = choose|j: int| 0 <= j < dof_span(d, d).len() && dof_span(d, d)[j] == b.dof + 1;
                if !st.project.mesh.node_sets.contains_key(p[0]) {
                    assert(nodes.contains(b.node_id));
                }
            }
        }
    }
}

proof fn lemma_boundary_block(ls: Seq<Seq<char>>, lo: int, hi: int, amp: Option<Seq<char>>, st: ParserModel)
    requires
        0 <= lo,
        hi <= ls.len(),
    ensures
        card_block(ls, lo, hi, Card::Boundary(amp), st) matches Ok(s) ==> {
            &&& s.current_step == st.current_step
            &&& s.project.amplitudes == st.project.amplitudes
            &&& bcs_in_force(s).len() >= bcs_in_force(st).len()
            &&& bcs_in_force(s).take(bcs_in_force(st).len() as int) == bcs_in_force(st)
            &&& forall|k: int|
                bcs_in_force(st).len() <= k < bcs_in_force(s).len() ==> amplitude_carried(
                    #[trigger] bcs_in_force(s)[k],
                    st,
                    amp,
                )
        },
    decreases hi - lo,
{
    if hi > lo {
        lemma_boundary_block(ls, lo, hi - 1, amp, st);
        if card_block(ls, lo, hi - 1, Card::Boundary(amp), st) is Ok {
            let s1 = card_block(ls, lo, hi - 1, Card::Boundary(amp), st)->Ok_0;
            law_boundary_line(s1, ls[hi - 1], amp);
            if boundary_line(s1, ls[hi - 1], amp) is Ok {
                let s = boundary_line(s1, ls[hi - 1], amp)->Ok_0;
                let b0 = bcs_in_force(st);
                let b1 = bcs_in_force(s1);
                let b2 = bcs_in_force(s);
                assert(b2.take(b0.len() as int) =~= b1.take(b0.len() as int)) by {
                    assert forall|k: int| 0 <= k < b0.len() implies b2[k] == b1[k] by {
                        assert(b2.take(b1.len() as int)[k] == b1[k]);
                    }
                }
                assert forall|k: int| b0.len() <= k < b2.len() implies amplitude_carried(#[trigger] b2[k], st, amp) by {
                    if k < b1.len() {
                        assert(b2.take(b1.len() as int)[k] == b1[k]);
                        assert(amplitude_carried(b1[k], st, amp));
                    }
                }
            }
        }
    }
}

/// A `*BOUNDARY, AMPLITUDE=A` card keeps the boundary conditions in force
/// (none with `OP=NEW`) and gives every boundary condition it adds the
/// amplitude defined as `A` before the card (the default ramp without
/// `AMPLITUDE=`, or where no amplitude has that name).
pub proof fn law_boundary_card(ls: Seq<Seq<char>>, i: int, st: ParserModel)
    requires
        0 <= i < ls.len(),
        keyword_named(replace_char(keyword_text(ls[i]), ' ', '_')) == Some(Keyword::Boundary),
    ensures
        keyword_card(ls, i, st) matches Ok((s, j)) ==> ({
            let a = keyword_value(ls[i], "AMPLITUDE"@);
            let base = if keyword_value(ls[i], "OP"@) == Some("NEW"@) {
                Seq::<NodalModel>::empty()
            } else {
                bcs_in_force(st)
            };
            &&& s.current_step == st.current_step
            &&& bcs_in_force(s).len() >= base.len()
            &&& bcs_in_force(s).take(base.len() as int) == base
            &&& forall|k: int|
                base.len() <= k < bcs_in_force(s).len() ==> amplitude_carried(
                    #[trigger] bcs_in_force(s)[k],
                    st,
                    a,
                )
        }),
{
    lemma_block_end(ls, i + 1);
    let line = ls[i];
    let st1 = ParserModel { keyword: Some(Keyword::Boundary), ..st };
    let r = boundary_reset(line, st1);
    let a = keyword_value(line, "AMPLITUDE"@);
    lemma_boundary_block(ls, i + 1, block_end(ls, i + 1), a, r);
    if keyword_card(ls, i, st) is Ok {
        let s = keyword_card(ls, i, st)->Ok_0.0;
        assert(bcs_in_force(r).len() == 0 || bcs_in_force(r) == bcs_in_force(st));
        assert forall|k: int| bcs_in_force(r).len() <= k < bcs_in_force(s).len() implies amplitude_carried(
            #[trigger] bcs_in_force(s)[k],
            st,
            a,
        ) by {
            assert(amplitude_carried(bcs_in_force(s)[k], r, a));
        }
    }
}

proof fn lemma_cload_block(ls: Seq<Seq<char>>, lo: int, hi: int, amp: Option<Seq<char>>, st: ParserModel)
    requires
        0 <= lo,
        hi <= ls.len(),
    ensures
        card_block(ls, lo, hi, Card::Cload(amp), st) matches Ok(s) ==> {
            &&& s.current_step == st.current_step
            &&& s.project.amplitudes == st.project.amplitudes
            &&& loads_in_force(s).len() >= loads_in_force(st).len()
            &&& loads_in_force(s).take(loads_in_force(st).len() as int) == loads_in_force(st)
            &&& forall|k: int|
                loads_in_force(st).len() <= k < loads_in_force(s).len() ==> amplitude_carried(
                    #[trigger] loads_in_force(s)[k],
                    st,
                    amp,
                )
        },
    decreases hi - lo,
{
    if hi > lo {
        lemma_cload_block(ls, lo, hi - 1, amp, st);
        if card_block(ls, lo, hi - 1, Card::Cload(amp), st) is Ok {
            let s1 = card_block(ls, lo, hi - 1, Card::Cload(amp), st)->Ok_0;
            law_cload_line(s1, ls[hi - 1], amp);
            if cload_line(s1, ls[hi - 1], amp) is Ok {
                let s = cload_line(s1, ls[hi - 1], amp)->Ok_0;
                let b0 = loads_in_force(st);
                let b1 = loads_in_force(s1);
                let b2 = loads_in_force(s);
                assert(b2.take(b0.len() as int) =~= b1.take(b0.len() as int)) by {
                    assert forall|k: int| 0 <= k < b0.len() implies b2[k] == b1[k] by {
                        assert(b2.take(b1.len() as int)[k] == b1[k]);
                    }
                }
                assert forall|k: int| b0.len() <= k < b2.len() implies amplitude_carried(#[trigger] b2[k], st, amp) by {
                    if k < b1.len() {
                        assert(b2.take(b1.len() as int)[k] == b1[k]);
                        assert(amplitude_carried(b1[k], st, amp));
                    }
                }
            }
        }
    }
}

/// A `*CLOAD, AMPLITUDE=A` card keeps the loads in force (none with
/// `OP=NEW`) and gives every load it adds the amplitude defined as `A`
/// before the card (the default ramp without `AMPLITUDE=`, or where no
/// amplitude has that name).
pub proof fn law_cload_card(ls: Seq<Seq<char>>, i: int, st: ParserModel)
    requires
        0 <= i < ls.len(),
        keyword_named(replace_char(keyword_text(ls[i]), ' ', '_')) == Some(Keyword::Cload),
    ensures
        keyword_card(ls, i, st) matches Ok((s, j)) ==> ({
            let a = keyword_value(ls[i], "AMPLITUDE"@);
            let base = if keyword_value(ls[i], "OP"@) == Some("NEW"@) {
                Seq::<NodalModel>::empty()
            } else {
                loads_in_force(st)
            };
            &&& s.current_step == st.current_step
            &&& loads_in_force(s).len() >= base.len()
            &&& loads_in_force(s).take(base.len() as int) == base
            &&& forall|k: int|
                base.len() <= k < loads_in_force(s).len() ==> amplitude_carried(
                    #[trigger] loads_in_force(s)[k],
                    st,
                    a,
                )
        }),
{
    lemma_block_end(ls, i + 1);
    let line = ls[i];
    let st1 = ParserModel { keyword: Some(Keyword::Cload), ..st };
    let r = cload_reset(line, st1);
    let a = keyword_value(line, "AMPLITUDE"@);
    lemma_cload_block(ls, i + 1, block_end(ls, i + 1), a, r);
    if keyword_card(ls, i, st) is Ok {
        let s = keyword_card(ls, i, st)->Ok_0.0;
        assert(loads_in_force(r).len() == 0 || loads_in_force(r) == loads_in_force(st));
        assert forall|k: int| loads_in_force(r).len() <= k < loads_in_force(s).len() implies amplitude_carried(
            #[trigger] loads_in_force(s)[k],
            st,
            a,
        ) by {
            assert(amplitude_carried(loads_in_force(s)[k], r, a));
        }
    }
}

/// A `*STEP` card (line `i`) starts the next step:
/// - the step counter goes up by one;
/// - the first step starts from the loads and boundary conditions defined
///   before any step; every later step starts from those in force at the end
///   of the step before it;
/// - the step being defined, if any, is closed with the loads and boundary
///   conditions in force, and appended to the project's steps;
/// - a static step is defined exactly when the next line is a `*STATIC` card:
///   it has no loads or boundary conditions of its own yet, is geometrically
///   nonlinear exactly when the card gives `NLGEOM`, uses the solver that
///   `SOLVER=` names (the default one without it), at most `INC=` iterations
///   (10000 if not given as a number), and the time incrementation of the
///   data line after `*STATIC` if it has four pieces (the defaults else).
pub proof fn law_step_card(ls: Seq<Seq<char>>, i: int, st: ParserModel)
    requires
        0 <= i < ls.len(),
    ensures
        step_card(ls, i, st) matches Ok((s, j)) ==> ({
            let line = ls[i];
            &&& s.step_counter == st.step_counter + 1
            &&& (st.step_counter == 0 ==> s.step_loads == st.project.initial_loads && s.step_bcs
                == st.project.initial_bcs)
            &&& (st.step_counter > 0 ==> s.step_loads == st.step_loads && s.step_bcs == st.step_bcs)
            &&& s.project.initial_loads == st.project.initial_loads
            &&& s.project.initial_bcs == st.project.initial_bcs
            &&& (st.current_step matches Some(c) ==> s.project.steps == st.project.steps.push(
                StepModel { loads: s.step_loads, bcs: s.step_bcs, ..c },
            ))
            &&& (st.current_step is None ==> s.project.steps == st.project.steps)
            &&& (s.current_step is Some <==> (i + 1 < ls.len() && starts_with(ls[i + 1], "*STATIC"@)))
            &&& (s.current_step matches Some(c) ==> {
                let inc = c.increment;
                let d = default_increment();
                &&& c.nlgeom == keyword_arguments(line).contains_key("NLGEOM"@)
                &&& c.loads.len() == 0
                &&& c.bcs.len() == 0
                &&& (keyword_value(ls[i + 1], "SOLVER"@) is None ==> c.solver == SolverType::Default)
                &&& (keyword_value(ls[i + 1], "SOLVER"@) == Some("DIRECT"@) ==> c.solver
                    == SolverType::Direct)
                &&& (keyword_value(ls[i + 1], "SOLVER"@) == Some("ITERATIVE"@) ==> c.solver
                    == SolverType::Iterative)
                &&& (keyword_value(line, "INC"@) matches Some(v) ==> inc.max_iterations == (if parse_usize(
                    v,
                ) is Ok {
                    parse_usize(v)->Ok_0
                } else {
                    10000
                }))
                &&& (keyword_value(line, "INC"@) is None ==> inc.max_iterations == 10000)
                &&& (i + 2 < ls.len() && !starts_with(ls[i + 2], "*"@) && positional_arguments(
                    ls[i + 2],
                ).len() >= 4 ==> {
                    let p = positional_arguments(ls[i + 2]);
                    &&& inc.initial_time_increment == p[0]
                    &&& inc.time_period == p[1]
                    &&& inc.min_time_increment == p[2]
                    &&& inc.max_time_increment == p[3]
                })
                &&& (!(i + 2 < ls.len() && !starts_with(ls[i + 2], "*"@) && positional_arguments(
                    ls[i + 2],
                ).len() >= 4) ==> {
                    &&& inc.initial_time_increment == d.initial_time_increment
                    &&& inc.time_period == d.time_period
                    &&& inc.min_time_increment == d.min_time_increment
                    &&& inc.max_time_increment == d.max_time_increment
                })
            })
        }),
{
    reveal_strlit("DIRECT");
    reveal_strlit("ITERATIVE");
    assert("DIRECT"@ != "ITERATIVE"@) by {
        assert("DIRECT"@.len() != "ITERATIVE"@.len());
    }
}

/// The table after a row is appended: the rows before and then the new row.
pub open spec fn appended_row(
    before: Option<Seq<(Seq<char>, Seq<char>)>>,
    after: Option<Seq<(Seq<char>, Seq<char>)>>,
    row: (Seq<char>, Seq<char>),
) -> bool {
    &&& (before matches Some(r) ==> after == Some(r.push(row)))
    &&& (before is None ==> after == Some(seq![row]))
}

/// `s` is `st` with only the last material changed.
pub open spec fn only_last_material_changed(st: ParserModel, s: ParserModel) -> bool {
    &&& st.materials.len() > 0
    &&& s.materials.len() == st.materials.len()
    &&& s.materials.drop_last() == st.materials.drop_last()
    &&& s == ParserModel { materials: s.materials, ..st }
}

/// A data line `E, NU[, T]` under `*ELASTIC` appends the row `(T, E)` to the
/// Young's modulus table and `(T, NU)` to the Poisson ratio table of the last
/// material (`T` is 0 if not given), and changes nothing else; a line of one
/// piece, or one before any material, changes nothing.
pub proof fn law_elastic_line(st: ParserModel, line: Seq<char>)
    ensures
        elastic_data(st, line) matches Ok(s) ==> ({
            let p = positional_arguments(line);
            &&& (st.materials.len() == 0 || p.len() < 2 ==> s == st)
            &&& (st.materials.len() > 0 && p.len() >= 2 ==> {
                let t = if p.len() >= 3 { p[2] } else { "0"@ };
                let m = st.materials.last();
                let n = s.materials.last();
                &&& only_last_material_changed(st, s)
                &&& appended_row(m.youngs_modulus, n.youngs_modulus, (t, p[0]))
                &&& appended_row(m.poisson_ratio, n.poisson_ratio, (t, p[1]))
                &&& n == MaterialModel { youngs_modulus: n.youngs_modulus, poisson_ratio: n.poisson_ratio, ..m }
            })
        }),
{
    if elastic_data(st, line) is Ok && st.materials.len() > 0 {
        let s = elastic_data(st, line)->Ok_0;
        assert(s.materials.drop_last() =~= st.materials.drop_last());
    }
}

/// A data line `RHO[, T]` under `*DENSITY` appends the row `(T, RHO)` to the
/// density table of the last material (`T` is 0 if not given), and changes
/// nothing else; a line before any material changes nothing.
pub proof fn law_density_line(st: ParserModel, line: Seq<char>)
    ensures
        density_data(st, line) matches Ok(s) ==> ({
            let p = positional_arguments(line);
            &&& (st.materials.len() == 0 || p.len() < 1 ==> s == st)
            &&& (st.materials.len() > 0 && p.len() >= 1 ==> {
                let t = if p.len() >= 2 { p[1] } else { "0"@ };
                let m = st.materials.last();
                let n = s.materials.last();
                &&& only_last_material_changed(st, s)
                &&& appended_row(m.density, n.density, (t, p[0]))
                &&& n == MaterialModel { density: n.density, ..m }
            })
        }),
{
    if density_data(st, line) is Ok && st.materials.len() > 0 {
        let s = density_data(st, line)->Ok_0;
        assert(s.materials.drop_last() =~= st.materials.drop_last());
    }
}

/// A data line `ALPHA[, T]` under `*EXPANSION` appends the row `(T, ALPHA)`
/// to the thermal expansion table of the last material (`T` is 0 if not
/// given), and changes nothing else; a line before any material changes
/// nothing.
pub proof fn law_expansion_line(st: ParserModel, line: Seq<char>)
    ensures
        expansion_data(st, line) matches Ok(s) ==> ({
            let p = positional_arguments(line);
            &&& (st.materials.len() == 0 || p.len() < 1 ==> s == st)
            &&& (st.materials.len() > 0 && p.len() >= 1 ==> {
                let t = if p.len() >= 2 { p[1] } else { "0"@ };
                let m = st.materials.last();
                let n = s.materials.last();
                &&& only_last_material_changed(st, s)
                &&& appended_row(m.thermal_expansion, n.thermal_expansion, (t, p[0]))
                &&& n == MaterialModel { thermal_expansion: n.thermal_expansion, ..m }
            })
        }),
{
    if expansion_data(st, line) is Ok && st.materials.len() > 0 {
        let s = expansion_data(st, line)->Ok_0;
        assert(s.materials.drop_last() =~= st.materials.drop_last());
    }
}

/// A data line `N` under `*DEPVAR` gives the last material `N` state
/// variables, and changes nothing else.
pub proof fn law_depvar_line(st: ParserModel, line: Seq<char>)
    ensures
        depvar_data(st, line) matches Ok(s) ==> ({
            let p = positional_arguments(line);
            &&& (st.materials.len() == 0 || p.len() < 1 ==> s == st)
            &&& (st.materials.len() > 0 && p.len() >= 1 ==> {
                &&& only_last_material_changed(st, s)
                &&& parse_usize(p[0]) == Ok::<usize, crate::text::IntErrorKind>(s.materials.last().num_depvars)
                &&& s.materials.last() == MaterialModel {
                    num_depvars: s.materials.last().num_depvars,
                    ..st.materials.last()
                }
            })
        }),
{
    if depvar_data(st, line) is Ok && st.materials.len() > 0 {
        let s = depvar_data(st, line)->Ok_0;
        assert(s.materials.drop_last() =~= st.materials.drop_last());
    }
}

/// A `*MATERIAL, NAME=N` card appends a material named `N` with no tables,
/// reference temperature 0 and no state variables, and changes nothing else.
pub proof fn law_material_card(line: Seq<char>, st: ParserModel)
    ensures
        material_card(line, st) matches Ok(s) ==> ({
            &&& keyword_value(line, "NAME"@) is Some
            &&& s == ParserModel {
                materials: st.materials.push(
                    MaterialModel {
                        name: keyword_value(line, "NAME"@)->0,
                        density: None,
                        youngs_modulus: None,
                        poisson_ratio: None,
                        thermal_expansion: None,
                        reference_temperature: "0"@,
                        num_depvars: 0,
                    },
                ),
                ..st
            }
        }),
{
}

/// A `*EXPANSION, ZERO=Z` card gives the last material the reference
/// temperature `Z`, and changes nothing else; without `ZERO=`, or before any
/// material, it changes nothing.
pub proof fn law_expansion_card(line: Seq<char>, st: ParserModel)
    ensures
        expansion_card(line, st) matches Ok(s) ==> ({
            &&& (st.materials.len() == 0 || keyword_value(line, "ZERO"@) is None ==> s == st)
            &&& (st.materials.len() > 0 && keyword_value(line, "ZERO"@) is Some ==> {
                &&& only_last_material_changed(st, s)
                &&& s.materials.last() == MaterialModel {
                    reference_temperature: keyword_value(line, "ZERO"@)->0,
                    ..st.materials.last()
                }
            })
        }),
{
    if expansion_card(line, st) is Ok && st.materials.len() > 0 {
        let s = expansion_card(line, st)->Ok_0;
        assert(s.materials.drop_last() =~= st.materials.drop_last());
    }
}

proof fn lemma_assign_all(m: Map<usize, usize>, ids: Seq<ElementId>, v: usize)
    ensures
        forall|x: usize|
            #![trigger assign_all(m, ids, v).contains_key(x)]
            (exists|j: int| 0 <= j < ids.len() && ids[j].0 == x) ==> assign_all(m, ids, v).contains_key(x)
                && assign_all(m, ids, v)[x] == v,
        forall|x: usize|
            #![trigger assign_all(m, ids, v).contains_key(x)]
            !(exists|j: int| 0 <= j < ids.len() && ids[j].0 == x) ==> assign_all(m, ids, v).contains_key(x)
                == m.contains_key(x) && (m.contains_key(x) ==> assign_all(m, ids, v)[x] == m[x]),
    decreases ids.len(),
{
    if ids.len() > 0 {
        let init = ids.drop_last();
        lemma_assign_all(m, init, v);
        assert forall|x: usize| (exists|j: int| 0 <= j < ids.len() && ids[j].0 == x) implies #[trigger] assign_all(m, ids, v).contains_key(x)
            && assign_all(m, ids, v)[x] == v by {
            let j = choose|j: int| 0 <= j < ids.len() && ids[j].0 == x;
            if x != ids.last().0 {
                assert(init[j].0 == x);
                assert(assign_all(m, init, v).contains_key(x));
            }
        }
        assert forall|x: usize| !(exists|j: int| 0 <= j < ids.len() && ids[j].0 == x) implies #[trigger] assign_all(m, ids, v).contains_key(x)
            == m.contains_key(x) && (m.contains_key(x) ==> assign_all(m, ids, v)[x] == m[x]) by {
            assert(ids[ids.len() - 1].0 != x);
            assert(!(exists|j: int| 0 <= j < init.len() && init[j].0 == x)) by {
                if exists|j: int| 0 <= j < init.len() && init[j].0 == x {
                    let j = choose|j: int| 0 <= j < init.len() && init[j].0 == x;
                    assert(ids[j].0 == x);
                }
            }
            assert(assign_all(m, init, v).contains_key(x) == m.contains_key(x));
        }
    }
}

proof fn lemma_set_all(m: Map<usize, Seq<char>>, nodes: Seq<NodeId>, t: Seq<char>)
    ensures
        forall|x: usize|
            #![trigger set_all(m, nodes, t).contains_key(x)]
            (exists|j: int| 0 <= j < nodes.len() && nodes[j].0 == x) ==> set_all(m, nodes, t).contains_key(x)
                && set_all(m, nodes, t)[x] == t,
        forall|x: usize|
            #![trigger set_all(m, nodes, t).contains_key(x)]
            !(exists|j: int| 0 <= j < nodes.len() && nodes[j].0 == x) ==> set_all(m, nodes, t).contains_key(x)
                == m.contains_key(x) && (m.contains_key(x) ==> set_all(m, nodes, t)[x] == m[x]),
    decreases nodes.len(),
{
    if nodes.len() > 0 {
        let init = nodes.drop_last();
        lemma_set_all(m, init, t);
        assert forall|x: usize| (exists|j: int| 0 <= j < nodes.len() && nodes[j].0 == x) implies #[trigger] set_all(m, nodes, t).contains_key(x)
            && set_all(m, nodes, t)[x] == t by {
            let j = choose|j: int| 0 <= j < nodes.len() && nodes[j].0 == x;
            if x != nodes.last().0 {
                assert(init[j].0 == x);
                assert(set_all(m, init, t).contains_key(x));
            }
        }
        assert forall|x: usize| !(exists|j: int| 0 <= j < nodes.len() && nodes[j].0 == x) implies #[trigger] set_all(m, nodes, t).contains_key(x)
            == m.contains_key(x) && (m.contains_key(x) ==> set_all(m, nodes, t)[x] == m[x]) by {
            assert(nodes[nodes.len() - 1].0 != x);
            assert(!(exists|j: int| 0 <= j < init.len() && init[j].0 == x)) by {
                if exists|j: int| 0 <= j < init.len() && init[j].0 == x {
                    let j = choose|j: int| 0 <= j < init.len() && init[j].0 == x;
                    assert(nodes[j].0 == x);
                }
            }
            assert(set_all(m, init, t).contains_key(x) == m.contains_key(x));
        }
    }
}

proof fn lemma_material_index(ms: Seq<MaterialModel>, name: Seq<char>)
    ensures
        material_index(ms, name) matches Some(k) ==> k < ms.len() && ms[k as int].name == name && forall|j: int|
            0 <= j < k ==> #[trigger] ms[j].name != name,
        material_index(ms, name) is None ==> forall|j: int| 0 <= j < ms.len() ==> #[trigger] ms[j].name != name,
    decreases ms.len(),
{
    if ms.len() > 0 {
        let init = ms.drop_last();
        lemma_material_index(init, name);
        assert forall|j: int| 0 <= j < init.len() implies init[j] == ms[j] by {}
    }
}

/// A `*SOLID SECTION, ELSET=E, MATERIAL=M` card assigns every element of the
/// set `E` the first material named `M` (by its index), keeps the material
/// of every other element, and changes nothing else; the set and the
/// material exist.
pub proof fn law_solid_section_card(line: Seq<char>, st: ParserModel)
    ensures
        solid_section_card(line, st) matches Ok(s) ==> ({
            let e = keyword_value(line, "ELSET"@)->0;
            let name = keyword_value(line, "MATERIAL"@)->0;
            let before = st.project.element_materials;
            let after = s.project.element_materials;
            &&& keyword_value(line, "ELSET"@) is Some
            &&& keyword_value(line, "MATERIAL"@) is Some
            &&& st.project.mesh.element_sets.contains_key(e)
            &&& s == ParserModel { project: crate::solver::project::ProjectModel { element_materials: after, ..st.project }, ..st }
            &&& exists|k: int| {
                &&& 0 <= k < st.materials.len()
                &&& st.materials[k].name == name
                &&& (forall|j: int| 0 <= j < k ==> #[trigger] st.materials[j].name != name)
                &&& forall|x: usize|
                    #![trigger after.contains_key(x)]
                    (exists|j: int| 0 <= j < st.project.mesh.element_sets[e].len()
                        && st.project.mesh.element_sets[e][j].0 == x) ==> after.contains_key(x) && after[x] == k as usize
            }
            &&& forall|x: usize|
                #![trigger after.contains_key(x)]
                !(exists|j: int| 0 <= j < st.project.mesh.element_sets[e].len()
                    && st.project.mesh.element_sets[e][j].0 == x) ==> after.contains_key(x) == before.contains_key(x)
                    && (before.contains_key(x) ==> after[x] == before[x])
        }),
{
    if solid_section_card(line, st) is Ok {
        let e = keyword_value(line, "ELSET"@)->0;
        let name = keyword_value(line, "MATERIAL"@)->0;
        lemma_material_index(st.materials, name);
        let k = material_index(st.materials, name)->0;
        lemma_assign_all(st.project.element_materials, st.project.mesh.element_sets[e], k as usize);
        let s = solid_section_card(line, st)->Ok_0;
        let after = s.project.element_materials;
        let ki = k as int;
        assert(after == assign_all(st.project.element_materials, st.project.mesh.element_sets[e], k as usize));
        assert(st.materials[ki].name == name);
        assert(forall|x: usize|
            #![trigger after.contains_key(x)]
            (exists|j: int| 0 <= j < st.project.mesh.element_sets[e].len()
                && st.project.mesh.element_sets[e][j].0 == x) ==> after.contains_key(x) && after[x] == ki as usize);
        assert(s == ParserModel { project: crate::solver::project::ProjectModel { element_materials: after, ..st.project }, ..st });
    }
}

/// The target names the node numbered `x`: it is a node of the node set of
/// that name, or, where no node set has that name, the target is its number.
pub open spec fn names_node(st: ParserModel, target: Seq<char>, x: usize) -> bool {
    if st.project.mesh.node_sets.contains_key(target) {
        exists|j: int| 0 <= j < st.project.mesh.node_sets[target].len()
            && st.project.mesh.node_sets[target][j].0 == x
    } else {
        parse_usize(target) == Ok::<usize, crate::text::IntErrorKind>(x)
    }
}

/// A data line `TARGET, T` under `*INITIAL CONDITIONS, TYPE=TEMPERATURE`
/// gives every node that `TARGET` names (the nodes of the node set of that
/// name, else the node with that number) the initial temperature `T`, keeps
/// that of every other node, and changes nothing else; under another type, or
/// with fewer than two pieces, it changes nothing.
pub proof fn law_initial_conditions_line(st: ParserModel, line: Seq<char>)
    ensures
        initial_conditions_data(st, line) matches Ok(s) ==> ({
            let p = positional_arguments(line);
            let before = st.project.initial_temperatures;
            let after = s.project.initial_temperatures;
            &&& (st.ic_type != Some("TEMPERATURE"@) || p.len() < 2 ==> s == st)
            &&& (st.ic_type == Some("TEMPERATURE"@) && p.len() >= 2 ==> {
                &&& s == ParserModel { project: crate::solver::project::ProjectModel { initial_temperatures: after, ..st.project }, ..st }
                &&& forall|x: usize| #![trigger after.contains_key(x)] names_node(st, p[0], x) ==> after.contains_key(x) && after[x] == p[1]
                &&& forall|x: usize|
                    #![trigger after.contains_key(x)]
                    !names_node(st, p[0], x) ==> after.contains_key(x) == before.contains_key(x) && (before.contains_key(x)
                        ==> after[x] == before[x])
            })
        }),
{
    let p = positional_arguments(line);
    if initial_conditions_data(st, line) is Ok && st.ic_type == Some("TEMPERATURE"@) && p.len() >= 2 {
        let nodes = resolve_target(st.project.mesh.node_sets, p[0]);
        lemma_set_all(st.project.initial_temperatures, nodes, p[1]);
        let s = initial_conditions_data(st, line)->Ok_0;
        assert(s.project.initial_temperatures == set_all(st.project.initial_temperatures, nodes, p[1]));
        assert(s == ParserModel { project: crate::solver::project::ProjectModel { initial_temperatures: s.project.initial_temperatures, ..st.project }, ..st });
        assert forall|x: usize| (exists|j: int| 0 <= j < nodes.len() && nodes[j].0 == x) <==> names_node(st, p[0], x) by {
            if !st.project.mesh.node_sets.contains_key(p[0]) && parse_usize(p[0]) == Ok::<usize, crate::text::IntErrorKind>(x) {
                assert(nodes[0].0 == x);
            }
        }
        let after = s.project.initial_temperatures;
        assert forall|x: usize| #![trigger after.contains_key(x)] names_node(st, p[0], x) implies after.contains_key(x) && after[x] == p[1] by {
            assert(set_all(st.project.initial_temperatures, nodes, p[1]).contains_key(x));
        }
        assert forall|x: usize| #![trigger after.contains_key(x)] !names_node(st, p[0], x) implies after.contains_key(x)
            == st.project.initial_temperatures.contains_key(x) && (st.project.initial_temperatures.contains_key(x) ==> after[x]
            == st.project.initial_temperatures[x]) by {
            assert(set_all(st.project.initial_temperatures, nodes, p[1]).contains_key(x) == st.project.initial_temperatures.contains_key(x));
        }
    }
}

/// `START, END, STEP` of a `GENERATE` line gives the numbers `START`,
/// `START + STEP`, ... up to `END`, in that order.
pub proof fn law_stepped_range(a: int, b: int, step: nat)
    requires
        step > 0,
        0 <= a,
        b <= usize::MAX,
    ensures
        forall|k: int|
            0 <= k < stepped_range(a, b, step).len() ==> #[trigger] stepped_range(a, b, step)[k] == a + k
                * step && a + k * step <= b,
        a > b ==> stepped_range(a, b, step).len() == 0,
        a <= b ==> stepped_range(a, b, step).len() > 0 && a + stepped_range(a, b, step).len() * step > b,
    decreases (if b >= a { b - a + 1 } else { 0 }),
{
    if a <= b {
        law_stepped_range(a + step, b, step);
        let r = stepped_range(a, b, step);
        let rest = stepped_range(a + step, b, step);
        assert(r == seq![a as usize] + rest);
        assert forall|k: int| 0 <= k < r.len() implies #[trigger] r[k] == a + k * step && a + k * step <= b by {
            if k == 0 {
                assert(r[0] == a as usize);
            } else {
                assert(r[k] == rest[k - 1]);
                assert(a + step + (k - 1) * step == a + k * step) by (nonlinear_arith);
            }
        }
        assert(a + step + rest.len() * step == a + r.len() * step) by (nonlinear_arith)
            requires
                r.len() == rest.len() + 1,
        ;
    }
}

/// The numbers of a list of pieces: those pieces that are numbers, in order.
pub proof fn law_listed_numbers(ps: Seq<Seq<char>>)
    ensures
        listed_numbers(ps) == ps.filter(|x: Seq<char>| parse_usize(x) is Ok).map_values(
            |x: Seq<char>| parse_usize(x)->Ok_0,
        ),
    decreases ps.len(),
{
    reveal(Seq::filter);
    if ps.len() > 0 {
        law_listed_numbers(ps.drop_last());
        let f = ps.drop_last().filter(|x: Seq<char>| parse_usize(x) is Ok);
        if parse_usize(ps.last()) is Ok {
            assert(f.push(ps.last()).map_values(|x: Seq<char>| parse_usize(x)->Ok_0) =~= f.map_values(
                |x: Seq<char>| parse_usize(x)->Ok_0,
            ).push(parse_usize(ps.last())->Ok_0));
        }
    }
}

/// The start, end and step of a `GENERATE` line: the numbers of its first
/// two pieces (0 where not a number) and of its third (1 where not given or
/// not a number).
pub open spec fn generate_bounds(p: Seq<Seq<char>>) -> (usize, usize, usize) {
    (
        number_or(p[0], 0),
        number_or(p[1], 0),
        if p.len() > 2 { number_or(p[2], 1) } else { 1 },
    )
}

/// A data line under `*NSET, NSET=N` appends to the node set `N` (an empty
/// one if there is none): with `GENERATE`, the nodes `START`, `START + STEP`,
/// ... up to `END` (a step of 0 panics); else the nodes numbered by the
/// pieces that are numbers, in order. Nothing else changes, and without a
/// set name nothing changes.
#[verifier::spinoff_prover]
#[verifier::rlimit(40)]
pub proof fn law_nset_line(st: ParserModel, line: Seq<char>)
    ensures
        ({
            let p = positional_arguments(line);
            st.set_name is Some && st.is_generate && p.len() >= 2 && generate_bounds(p).2 == 0
                <==> nset_line(st, line) == Err::<ParserModel, Stop>(Stop::Panic)
        }),
        nset_line(st, line) matches Ok(s) ==> ({
            let p = positional_arguments(line);
            let sets = st.project.mesh.node_sets;
            &&& (st.set_name is None || (st.is_generate && p.len() < 2) ==> s == st)
            &&& (st.set_name is Some && !(st.is_generate && p.len() < 2) ==> {
                let name = st.set_name->0;
                let old = if sets.contains_key(name) { sets[name] } else { Seq::empty() };
                let new = s.project.mesh.node_sets[name];
                &&& s.project.mesh.node_sets == sets.insert(name, new)
                &&& s == ParserModel {
                    project: crate::solver::project::ProjectModel {
                        mesh: crate::solver::mesh_lib::mesh::MeshModel { node_sets: s.project.mesh.node_sets, ..st.project.mesh },
                        ..st.project
                    },
                    ..st
                }
                &&& new.len() >= old.len()
                &&& new.take(old.len() as int) == old
                &&& (!st.is_generate ==> new.skip(old.len() as int) == p.filter(|x: Seq<char>| parse_usize(x) is Ok).map_values(
                    |x: Seq<char>| NodeId(parse_usize(x)->Ok_0),
                ))
                &&& (st.is_generate ==> {
                    let (a, b, step) = generate_bounds(p);
                    &&& (a > b ==> new.len() == old.len())
                    &&& (a <= b ==> new.len() > old.len() && a + (new.len() - old.len()) * step > b)
                    &&& forall|k: int| 0 <= k < new.len() - old.len() ==> #[trigger] new[old.len() + k].0 == a + k * step
                        && a + k * step <= b
                })
            })
        }),
{
    let p = positional_arguments(line);
    if st.set_name is Some && nset_line(st, line) is Ok && !(st.is_generate && p.len() < 2) {
        let name = st.set_name->0;
        let s = nset_line(st, line)->Ok_0;
        let sets = st.project.mesh.node_sets;
        let old = if sets.contains_key(name) { sets[name] } else { Seq::empty() };
        let new = s.project.mesh.node_sets[name];
        if st.is_generate {
            let (a, b, step) = generate_bounds(p);
            law_stepped_range(a as int, b as int, step as nat);
            let r = stepped_range(a as int, b as int, step as nat);
            assert(new == old + r.map_values(|x: usize| NodeId(x)));
            assert(new.take(old.len() as int) =~= old);
            assert forall|k: int| 0 <= k < new.len() - old.len() implies #[trigger] new[old.len() + k].0 == a + k * step
                && a + k * step <= b by {
                assert(new[old.len() + k] == NodeId(r[k]));
            }
        } else {
            law_listed_numbers(p);
            let f = p.filter(|x: Seq<char>| parse_usize(x) is Ok);
            assert(new == old + listed_numbers(p).map_values(|x: usize| NodeId(x)));
            assert(new.take(old.len() as int) =~= old);
            assert(new.skip(old.len() as int) =~= f.map_values(|x: Seq<char>| NodeId(parse_usize(x)->Ok_0)));
        }
    }
}

/// A data line under `*ELSET, ELSET=N` appends to the element set `N` (an
/// empty one if there is none): with `GENERATE`, the elements `START`,
/// `START + STEP`, ... up to `END` (a step of 0 panics); else the elements
/// numbered by the pieces that are numbers, in order, or, for a line that is
/// the name of another element set, the elements of that set. Nothing else
/// changes, and without a set name nothing changes.
#[verifier::spinoff_prover]
#[verifier::rlimit(40)]
pub proof fn law_elset_line(st: ParserModel, line: Seq<char>)
    ensures
        ({
            let p = positional_arguments(line);
            st.set_name is Some && st.is_generate && p.len() >= 2 && generate_bounds(p).2 == 0
                <==> elset_line(st, line) == Err::<ParserModel, Stop>(Stop::Panic)
        }),
        elset_line(st, line) matches Ok(s) ==> ({
            let p = positional_arguments(line);
            let sets = st.project.mesh.element_sets;
            let numbers = p.filter(|x: Seq<char>| parse_usize(x) is Ok);
            let names_set = !st.is_generate && !crate::text::contains(line, ',') && numbers.len() == 0;
            &&& (st.set_name is None || (st.is_generate && p.len() < 2) || (names_set && !sets.contains_key(
                trim(line),
            )) ==> s == st)
            &&& (st.set_name is Some && !(st.is_generate && p.len() < 2) && !(names_set && !sets.contains_key(
                trim(line),
            )) ==> {
                let name = st.set_name->0;
                let old = if sets.contains_key(name) { sets[name] } else { Seq::empty() };
                let new = s.project.mesh.element_sets[name];
                &&& s.project.mesh.element_sets == sets.insert(name, new)
                &&& s == ParserModel {
                    project: crate::solver::project::ProjectModel {
                        mesh: crate::solver::mesh_lib::mesh::MeshModel { element_sets: s.project.mesh.element_sets, ..st.project.mesh },
                        ..st.project
                    },
                    ..st
                }
                &&& new.len() >= old.len()
                &&& new.take(old.len() as int) == old
                &&& (names_set ==> new.skip(old.len() as int) == sets[trim(line)])
                &&& (!st.is_generate && !names_set ==> new.skip(old.len() as int) == numbers.map_values(
                    |x: Seq<char>| ElementId(parse_usize(x)->Ok_0),
                ))
                &&& (st.is_generate ==> {
                    let (a, b, step) = generate_bounds(p);
                    &&& (a > b ==> new.len() == old.len())
                    &&& (a <= b ==> new.len() > old.len() && a + (new.len() - old.len()) * step > b)
                    &&& forall|k: int| 0 <= k < new.len() - old.len() ==> #[trigger] new[old.len() + k].0 == a + k * step
                        && a + k * step <= b
                })
            })
        }),
{
    let p = positional_arguments(line);
    law_listed_numbers(p);
    reveal(Seq::filter);
    let f = p.filter(|x: Seq<char>| parse_usize(x) is Ok);
    assert(listed_numbers(p).len() == f.len());
    if st.set_name is Some && elset_line(st, line) is Ok && !(st.is_generate && p.len() < 2) {
        let name = st.set_name->0;
        let s = elset_line(st, line)->Ok_0;
        let sets = st.project.mesh.element_sets;
        let old = if sets.contains_key(name) { sets[name] } else { Seq::empty() };
        let new = s.project.mesh.element_sets[name];
        if st.is_generate {
            let (a, b, step) = generate_bounds(p);
            law_stepped_range(a as int, b as int, step as nat);
            let r = stepped_range(a as int, b as int, step as nat);
            assert(new == old + r.map_values(|x: usize| ElementId(x)));
            assert(new.take(old.len() as int) =~= old);
            assert forall|k: int| 0 <= k < new.len() - old.len() implies #[trigger] new[old.len() + k].0 == a + k * step
                && a + k * step <= b by {
                assert(new[old.len() + k] == ElementId(r[k]));
            }
        } else if !crate::text::contains(line, ',') && f.len() == 0 {
            if sets.contains_key(trim(line)) {
                assert(new == old + sets[trim(line)]);
                assert(new.take(old.len() as int) =~= old);
                assert(new.skip(old.len() as int) =~= sets[trim(line)]);
            }
        } else {
            assert(new == old + listed_numbers(p).map_values(|x: usize| ElementId(x)));
            assert(new.take(old.len() as int) =~= old);
            assert(new.skip(old.len() as int) =~= f.map_values(|x: Seq<char>| ElementId(parse_usize(x)->Ok_0)));
        }
    }
}

/// A data line under `*NODE` stores the node it gives under its number,
/// replacing a node of that number, and changes nothing else; a line that
/// gives no node is an error.
pub proof fn law_node_data(st: ParserModel, line: Seq<char>)
    ensures
        node_data(st, line) is Ok <==> node_of_line(line) is Some,
        node_data(st, line) matches Ok(s) ==> ({
            let n = node_of_line(line)->0;
            s == ParserModel {
                project: crate::solver::project::ProjectModel {
                    mesh: crate::solver::mesh_lib::mesh::MeshModel {
                        nodes: st.project.mesh.nodes.insert(n.id.0, n),
                        ..st.project.mesh
                    },
                    ..st.project
                },
                ..st
            }
        }),
{
}

/// A data line under `*ELEMENT, TYPE=T[, ELSET=E]` stores the element it
/// gives for the type `T` under its number and, where `E` is a non-empty
/// name, appends that number to the element set `E` (an empty one if there
/// is none); nothing else changes. Under a card without `TYPE=` the line
/// changes nothing.
pub proof fn law_element_data(st: ParserModel, line: Seq<char>)
    ensures
        element_data(st, line) matches Ok(s) ==> ({
            &&& (st.element_type is None ==> s == st)
            &&& (st.element_type is Some ==> {
                let e = element_of_line(st.element_type->0, line)->Ok_0;
                let sets = st.project.mesh.element_sets;
                &&& element_of_line(st.element_type->0, line) is Ok
                &&& s.project.mesh.elements == st.project.mesh.elements.insert(e.id.0, e)
                &&& (st.elset_name matches Some(n) ==> s.project.mesh.element_sets == (if n.len() > 0 {
                    sets.insert(n, (if sets.contains_key(n) { sets[n] } else { Seq::empty() }).push(e.id))
                } else {
                    sets
                }))
                &&& (st.elset_name is None ==> s.project.mesh.element_sets == sets)
                &&& s == ParserModel {
                    project: crate::solver::project::ProjectModel {
                        mesh: crate::solver::mesh_lib::mesh::MeshModel {
                            elements: s.project.mesh.elements,
                            element_sets: s.project.mesh.element_sets,
                            ..st.project.mesh
                        },
                        ..st.project
                    },
                    ..st
                }
            })
        }),
{
    if element_data(st, line) is Ok && st.element_type is Some {
        let e = element_of_line(st.element_type->0, line)->Ok_0;
        let sets = st.project.mesh.element_sets;
        if st.elset_name is Some {
            let n = st.elset_name->0;
            let old = if sets.contains_key(n) { sets[n] } else { Seq::<ElementId>::empty() };
            assert(old + seq![e.id] =~= old.push(e.id));
        }
    }
}

/// An `*ELEMENT` card makes the following data lines elements of the type
/// its `TYPE=` names, added to the set its `ELSET=` names.
pub proof fn law_element_card(ls: Seq<Seq<char>>, i: int, st: ParserModel)
    requires
        0 <= i < ls.len(),
        keyword_named(replace_char(keyword_text(ls[i]), ' ', '_')) == Some(Keyword::Element),
    ensures
        keyword_card(ls, i, st) matches Ok((s, j)) ==> ({
            &&& j == i + 1
            &&& s.keyword == Some(Keyword::Element)
            &&& s.element_type == keyword_value(ls[i], "TYPE"@)
            &&& s.elset_name == keyword_value(ls[i], "ELSET"@)
            &&& s.project == st.project
            &&& s.materials == st.materials
        }),
{
}

proof fn lemma_arguments_map(args: Seq<Seq<char>>)
    ensures
        forall|x: Seq<char>|
            #[trigger] arguments_map(args).contains_key(x) <==> exists|k: int|
                0 <= k < args.len() && keyword_argument(args[k]).0 == x,
        forall|k: int|
            0 <= k < args.len() && (forall|q: int| k < q < args.len() ==> keyword_argument(args[q]).0 != keyword_argument(args[k]).0)
                ==> arguments_map(args)[#[trigger] keyword_argument(args[k]).0] == keyword_argument(args[k]).1,
    decreases args.len(),
{
    if args.len() > 0 {
        let init = args.drop_last();
        lemma_arguments_map(init);
        assert forall|x: Seq<char>| #[trigger] arguments_map(args).contains_key(x) <==> exists|k: int|
            0 <= k < args.len() && keyword_argument(args[k]).0 == x by {
            assert(arguments_map(init).contains_key(x) <==> exists|k: int|
                0 <= k < init.len() && keyword_argument(init[k]).0 == x);
            if exists|k: int| 0 <= k < init.len() && keyword_argument(init[k]).0 == x {
                let k = choose|k: int| 0 <= k < init.len() && keyword_argument(init[k]).0 == x;
                assert(args[k] == init[k]);
            }
            if keyword_argument(args.last()).0 == x {
                assert(keyword_argument(args[args.len() - 1]).0 == x);
            }
            if exists|k: int| 0 <= k < args.len() && keyword_argument(args[k]).0 == x {
                let k = choose|k: int| 0 <= k < args.len() && keyword_argument(args[k]).0 == x;
                if k < init.len() {
                    assert(args[k] == init[k]);
                }
            }
        }
        assert forall|k: int|
            0 <= k < args.len() && (forall|q: int| k < q < args.len() ==> keyword_argument(args[q]).0 != keyword_argument(args[k]).0)
            implies arguments_map(args)[#[trigger] keyword_argument(args[k]).0] == keyword_argument(args[k]).1 by {
            if k < init.len() {
                assert(args[k] == init[k]);
                assert(keyword_argument(args[args.len() - 1]).0 != keyword_argument(args[k]).0);
                assert forall|q: int| k < q < init.len() implies keyword_argument(init[q]).0 != keyword_argument(init[k]).0 by {
                    assert(args[q] == init[q]);
                }
            }
        }
    }
}

/// The arguments of a keyword line `*KEYWORD, K1=V1, K2, ...`: a key is
/// there exactly when some piece after the first gives it (the trimmed text
/// before its first `=`, or the whole trimmed piece); its value is that of
/// the last piece that gives it: the trimmed text after the `=`, or none for
/// a piece without `=`.
pub proof fn law_keyword_arguments(line: Seq<char>)
    ensures
        forall|x: Seq<char>|
            #[trigger] keyword_arguments(line).contains_key(x) <==> exists|k: int|
                1 <= k < split(line, ',').len() && keyword_argument(split(line, ',')[k]).0 == x,
        forall|k: int|
            1 <= k < split(line, ',').len() && (forall|q: int|
                k < q < split(line, ',').len() ==> keyword_argument(split(line, ',')[q]).0 != keyword_argument(
                    split(line, ',')[k],
                ).0) ==> keyword_arguments(line)[#[trigger] keyword_argument(split(line, ',')[k]).0]
                == keyword_argument(split(line, ',')[k]).1,
        forall|p: Seq<char>|
            #[trigger] keyword_argument(p) == (match split_once(p, '=') {
                Some((a, b)) => (trim(a), Some(trim(b))),
                None => (trim(p), None),
            }),
{
    let ps = split(line, ',');
    crate::text::lemma_split_len(line, ',');
    let args = ps.skip(1);
    lemma_arguments_map(args);
    assert forall|x: Seq<char>| #[trigger] keyword_arguments(line).contains_key(x) <==> exists|k: int|
        1 <= k < ps.len() && keyword_argument(ps[k]).0 == x by {
        assert(arguments_map(args).contains_key(x) <==> exists|k: int| 0 <= k < args.len() && keyword_argument(args[k]).0 == x);
        if exists|k: int| 0 <= k < args.len() && keyword_argument(args[k]).0 == x {
            let k = choose|k: int| 0 <= k < args.len() && keyword_argument(args[k]).0 == x;
            assert(args[k] == ps[k + 1]);
        }
        if exists|k: int| 1 <= k < ps.len() && keyword_argument(ps[k]).0 == x {
            let k = choose|k: int| 1 <= k < ps.len() && keyword_argument(ps[k]).0 == x;
            assert(args[k - 1] == ps[k]);
        }
    }
    assert forall|k: int|
        1 <= k < ps.len() && (forall|q: int| k < q < ps.len() ==> keyword_argument(ps[q]).0 != keyword_argument(ps[k]).0)
        implies keyword_arguments(line)[#[trigger] keyword_argument(ps[k]).0] == keyword_argument(ps[k]).1 by {
        assert(args[k - 1] == ps[k]);
        assert forall|q: int| k - 1 < q < args.len() implies keyword_argument(#[trigger] args[q]).0 != keyword_argument(args[k - 1]).0 by {
            assert(args[q] == ps[q + 1]);
        }
    }
}

/// An `*END STEP` card closes the step being defined: it is appended to the
/// project's steps with the loads and boundary conditions in force, and no
/// step is being defined after it. Without a step being defined it changes
/// nothing but the keyword.
pub proof fn law_end_step_card(ls: Seq<Seq<char>>, i: int, st: ParserModel)
    requires
        0 <= i < ls.len(),
        keyword_named(replace_char(keyword_text(ls[i]), ' ', '_')) == Some(Keyword::EndStep),
    ensures
        keyword_card(ls, i, st) matches Ok((s, j)) ==> ({
            &&& j == i + 1
            &&& s.current_step is None
            &&& (st.current_step matches Some(c) ==> s.project.steps == st.project.steps.push(
                StepModel { loads: st.step_loads, bcs: st.step_bcs, ..c },
            ))
            &&& (st.current_step is None ==> s.project.steps == st.project.steps)
            &&& s.step_loads == st.step_loads
            &&& s.step_bcs == st.step_bcs
            &&& s.step_counter == st.step_counter
            &&& s.project.initial_loads == st.project.initial_loads
            &&& s.project.initial_bcs == st.project.initial_bcs
        }),
{
}

/// An `*INITIAL CONDITIONS, TYPE=T` card makes the following data lines
/// initial conditions of the type `T`, uppercased.
pub proof fn law_initial_conditions_card(ls: Seq<Seq<char>>, i: int, st: ParserModel)
    requires
        0 <= i < ls.len(),
        keyword_named(replace_char(keyword_text(ls[i]), ' ', '_')) == Some(Keyword::InitialConditions),
    ensures
        keyword_card(ls, i, st) matches Ok((s, j)) ==> ({
            &&& j == i + 1
            &&& s.keyword == Some(Keyword::InitialConditions)
            &&& (keyword_value(ls[i], "TYPE"@) matches Some(t) ==> s.ic_type == Some(upper(t)))
            &&& (keyword_value(ls[i], "TYPE"@) is None ==> s.ic_type is None)
            &&& s.project == st.project
        }),
{
}

proof fn lemma_set_block(ls: Seq<Seq<char>>, lo: int, hi: int, card: Card, st: ParserModel)
    requires
        0 <= lo,
        hi <= ls.len(),
        card == Card::Nset || card == Card::Elset,
    ensures
        card_block(ls, lo, hi, card, st) matches Ok(s) ==> s.set_name == st.set_name && s.is_generate
            == st.is_generate && s.keyword == st.keyword,
    decreases hi - lo,
{
    if hi > lo {
        lemma_set_block(ls, lo, hi - 1, card, st);
    }
}

/// An `*NSET, NSET=N[, GENERATE]` or `*ELSET, ELSET=N[, GENERATE]` card
/// reads its block of data lines into the set `N`, as ranges exactly when
/// `GENERATE` is given, and goes on after the block.
pub proof fn law_set_cards(ls: Seq<Seq<char>>, i: int, st: ParserModel)
    requires
        0 <= i < ls.len(),
        keyword_named(replace_char(keyword_text(ls[i]), ' ', '_')) == Some(Keyword::Nset)
            || keyword_named(replace_char(keyword_text(ls[i]), ' ', '_')) == Some(Keyword::Elset),
    ensures
        keyword_card(ls, i, st) matches Ok((s, j)) ==> ({
            let kw = keyword_named(replace_char(keyword_text(ls[i]), ' ', '_'));
            let key = if kw == Some(Keyword::Nset) { "NSET"@ } else { "ELSET"@ };
            &&& j == block_end(ls, i + 1)
            &&& s.keyword == kw
            &&& s.set_name == keyword_value(ls[i], key)
            &&& s.is_generate == keyword_arguments(ls[i]).contains_key("GENERATE"@)
        }),
{
    lemma_block_end(ls, i + 1);
    let line = ls[i];
    let kw = keyword_named(replace_char(keyword_text(ls[i]), ' ', '_'));
    let st1 = ParserModel { keyword: kw, ..st };
    let end = block_end(ls, i + 1);
    lemma_set_block(ls, i + 1, end, Card::Nset, ParserModel {
        set_name: keyword_value(line, "NSET"@),
        is_generate: keyword_arguments(line).contains_key("GENERATE"@),
        ..st1
    });
    lemma_set_block(ls, i + 1, end, Card::Elset, ParserModel {
        set_name: keyword_value(line, "ELSET"@),
        is_generate: keyword_arguments(line).contains_key("GENERATE"@),
        ..st1
    });
}

/// The pieces of a data line: its comma-separated pieces, in order, each
/// trimmed; and the value of a keyword argument is the one the arguments
/// map gives, where the key is there.
pub proof fn law_line_pieces(line: Seq<char>, key: Seq<char>)
    ensures
        positional_arguments(line).len() == split(line, ',').len(),
        forall|k: int|
            0 <= k < split(line, ',').len() ==> #[trigger] positional_arguments(line)[k] == trim(
                split(line, ',')[k],
            ),
        keyword_value(line, key) == (if keyword_arguments(line).contains_key(key) {
            keyword_arguments(line)[key]
        } else {
            None
        }),
{
}

/// The pieces of a line of an `*AMPLITUDE` block that hold times (parity 0)
/// or values (parity 1): with no empty piece, the pieces at the even or odd
/// positions, in order, trimmed.
pub proof fn law_alternate(p: Seq<Seq<char>>)
    requires
        forall|k: int| 0 <= k < p.len() ==> trim(#[trigger] p[k]).len() > 0,
    ensures
        alternate(p, 0).len() == (p.len() + 1) / 2,
        alternate(p, 1).len() == p.len() / 2,
        forall|k: int| 0 <= k < alternate(p, 0).len() ==> #[trigger] alternate(p, 0)[k] == trim(p[2 * k]),
        forall|k: int| 0 <= k < alternate(p, 1).len() ==> #[trigger] alternate(p, 1)[k] == trim(p[2 * k + 1]),
    decreases p.len(),
{
    if p.len() > 0 {
        let init = p.drop_last();
        assert forall|k: int| 0 <= k < init.len() implies trim(#[trigger] init[k]).len() > 0 by {
            assert(init[k] == p[k]);
        }
        law_alternate(init);
        let n = p.len() - 1;
        assert(trim(p[n]).len() > 0);
        assert forall|k: int| 0 <= k < alternate(p, 0).len() implies #[trigger] alternate(p, 0)[k] == trim(p[2 * k]) by {
            if k < alternate(init, 0).len() {
                assert(init[2 * k] == p[2 * k]);
            }
        }
        assert forall|k: int| 0 <= k < alternate(p, 1).len() implies #[trigger] alternate(p, 1)[k] == trim(p[2 * k + 1]) by {
            if k < alternate(init, 1).len() {
                assert(init[2 * k + 1] == p[2 * k + 1]);
            }
        }
    }
}

/// The times (parity 0) or values (parity 1) of the lines `lo..hi` of an
/// `*AMPLITUDE` block, line after line.
pub open spec fn block_pieces(ls: Seq<Seq<char>>, lo: int, hi: int, parity: int) -> Seq<Seq<char>> {
    Seq::new((if hi > lo { hi - lo } else { 0 }) as nat, |j: int| alternate(split(ls[lo + j], ','), parity)).flatten_alt()
}

/// The table of an `*AMPLITUDE` block: its times are the time pieces of its
/// lines, line after line, and its values their value pieces.
pub proof fn law_amplitude_rows(ls: Seq<Seq<char>>, lo: int, hi: int, line: nat)
    requires
        0 <= lo,
        hi <= ls.len(),
    ensures
        amplitude_rows(ls, lo, hi, line) matches Ok((t, v)) ==> t == block_pieces(ls, lo, hi, 0) && v
            == block_pieces(ls, lo, hi, 1),
    decreases hi - lo,
{
    if hi > lo {
        law_amplitude_rows(ls, lo, hi - 1, line);
        let f0 = |j: int| alternate(split(ls[lo + j], ','), 0);
        let f1 = |j: int| alternate(split(ls[lo + j], ','), 1);
        assert(Seq::new((hi - lo) as nat, f0).drop_last() =~= Seq::new((if hi - 1 > lo { hi - 1 - lo } else { 0 }) as nat, f0));
        assert(Seq::new((hi - lo) as nat, f1).drop_last() =~= Seq::new((if hi - 1 > lo { hi - 1 - lo } else { 0 }) as nat, f1));
    } else {
        assert(Seq::new(0nat, |j: int| alternate(split(ls[lo + j], ','), 0)) =~= Seq::<Seq<Seq<char>>>::empty());
        assert(Seq::new(0nat, |j: int| alternate(split(ls[lo + j], ','), 1)) =~= Seq::<Seq<Seq<char>>>::empty());
    }
}

/// The trimmed comma-separated pieces of the lines `lo..hi`, line after line.
pub open spec fn block_arguments(ls: Seq<Seq<char>>, lo: int, hi: int) -> Seq<Seq<char>> {
    Seq::new((if hi > lo { hi - lo } else { 0 }) as nat, |j: int| positional_arguments(ls[lo + j])).flatten_alt()
}

/// The block of a `*NODE FILE` card appends the pieces of its lines, line
/// after line, to the nodal output requests, and that of an `*EL FILE` card
/// to the element output requests; nothing else changes.
pub proof fn law_output_blocks(ls: Seq<Seq<char>>, lo: int, hi: int, st: ParserModel)
    requires
        0 <= lo,
        hi <= ls.len(),
    ensures
        card_block(ls, lo, hi, Card::NodeFile, st) == Ok::<ParserModel, Stop>(ParserModel {
            project: crate::solver::project::ProjectModel {
                nodal_output: st.project.nodal_output + block_arguments(ls, lo, hi),
                ..st.project
            },
            ..st
        }),
        card_block(ls, lo, hi, Card::ElFile, st) == Ok::<ParserModel, Stop>(ParserModel {
            project: crate::solver::project::ProjectModel {
                element_output: st.project.element_output + block_arguments(ls, lo, hi),
                ..st.project
            },
            ..st
        }),
    decreases hi - lo,
{
    let f = |j: int| positional_arguments(ls[lo + j]);
    if hi > lo {
        law_output_blocks(ls, lo, hi - 1, st);
        assert(Seq::new((hi - lo) as nat, f).drop_last() =~= Seq::new((if hi - 1 > lo { hi - 1 - lo } else { 0 }) as nat, f));
        let b0 = block_arguments(ls, lo, hi - 1);
        let b1 = block_arguments(ls, lo, hi);
        assert(b1 == b0 + positional_arguments(ls[hi - 1]));
        assert(st.project.nodal_output + b0 + positional_arguments(ls[hi - 1]) =~= st.project.nodal_output + b1);
        assert(st.project.element_output + b0 + positional_arguments(ls[hi - 1]) =~= st.project.element_output + b1);
    } else {
        assert(Seq::new(0nat, f) =~= Seq::<Seq<Seq<char>>>::empty());
        assert(st.project.nodal_output + block_arguments(ls, lo, hi) =~= st.project.nodal_output);
        assert(st.project.element_output + block_arguments(ls, lo, hi) =~= st.project.element_output);
    }
}

} // verus!
