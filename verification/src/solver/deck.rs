//! What the parser makes of a deck, as a state machine over plain values.
//!
//! The parser reads the lines of a preprocessed deck one by one. A line that
//! starts with `*` is a keyword card: it sets the current keyword and, for
//! some cards, consumes the data lines that follow it (up to the next line
//! that starts with `*`). Any other non-blank line is a data line of the
//! current keyword. This module states each of these steps as a function
//! from the parser's state to the next one.
use crate::solver::amplitude::{default_amplitude, AmplitudeModel};
use crate::solver::error::ErrorModel;
use crate::solver::ids::{ElementId, NodeId};
use crate::solver::increment::{default_increment, IncrementModel};
use crate::solver::material::MaterialModel;
use crate::solver::mesh_lib::elements::element::element_of_line;
use crate::solver::mesh_lib::mesh::MeshModel;
use crate::solver::mesh_lib::node::node_of_line;
use crate::solver::parser::{
    keyword_arguments, keyword_named, keyword_value, positional_arguments, Keyword,
};
use crate::solver::project::{empty_project, ProjectModel};
use crate::solver::solvers::SolverType;
use crate::solver::step::boundary_conds::NodalModel;
use crate::solver::step::static_step::StepModel;
use crate::text::{
    contains, eq_ignore_case, float_error_message, is_float_literal, lines, parse_usize, replace_char, split,
    starts_with, trim, upper,
};
use vstd::prelude::*;

verus! {

/// The state of the parser between two lines.
pub struct ParserModel {
    /// The project built so far.
    pub project: ProjectModel,
    /// The materials defined so far (moved into the project at the end).
    pub materials: Seq<MaterialModel>,
    /// The keyword of the last keyword card.
    pub keyword: Option<Keyword>,
    /// The number (from 1) of the line being read.
    pub line_nr: nat,
    /// `TYPE=` of the last `*ELEMENT` card.
    pub element_type: Option<Seq<char>>,
    /// `ELSET=` of the last `*ELEMENT` card.
    pub elset_name: Option<Seq<char>>,
    /// The set named by the last `*NSET` or `*ELSET` card.
    pub set_name: Option<Seq<char>>,
    /// Whether the last `*NSET` or `*ELSET` card has `GENERATE`.
    pub is_generate: bool,
    /// The step being defined, if any.
    pub current_step: Option<StepModel>,
    /// The number of `*STEP` cards read.
    pub step_counter: nat,
    /// The loads of the step being defined.
    pub step_loads: Seq<NodalModel>,
    /// The boundary conditions of the step being defined.
    pub step_bcs: Seq<NodalModel>,
    /// `TYPE=` of the last `*INITIAL CONDITIONS` card, uppercased.
    pub ic_type: Option<Seq<char>>,
}

/// Why the parser stopped early: an error it returns, or a panic.
pub enum Stop {
    Error(ErrorModel),
    Panic,
}

/// The state in which the parser starts on a project.
pub open spec fn start_state(project: ProjectModel) -> ParserModel {
    ParserModel {
        project,
        materials: Seq::empty(),
        keyword: None,
        line_nr: 0,
        element_type: None,
        elset_name: None,
        set_name: None,
        is_generate: false,
        current_step: None,
        step_counter: 0,
        step_loads: Seq::empty(),
        step_bcs: Seq::empty(),
        ic_type: None,
    }
}

// ------------------------------------------------------------------
// Small pieces
// ------------------------------------------------------------------

/// A `ParseError` on line `line`.
pub open spec fn parse_error(line: nat, message: Seq<char>) -> ErrorModel {
    ErrorModel::ParseError { line, message }
}

/// `piece` if it is a float literal, else the parse error whose message is
/// `prefix` followed by the message of the float parser.
pub open spec fn float_or(line: nat, prefix: Seq<char>, piece: Seq<char>) -> Result<Seq<char>, ErrorModel> {
    if is_float_literal(piece) {
        Ok(piece)
    } else {
        Err(parse_error(line, prefix + float_error_message(piece)))
    }
}

/// The first of `pieces` that is no float literal.
pub open spec fn first_non_float(pieces: Seq<Seq<char>>) -> Option<Seq<char>>
    decreases pieces.len(),
{
    if pieces.len() == 0 {
        None
    } else {
        match first_non_float(pieces.drop_last()) {
            Some(p) => Some(p),
            None => if is_float_literal(pieces.last()) {
                None
            } else {
                Some(pieces.last())
            },
        }
    }
}

/// `pieces` if every one is a float literal, else the parse error for the
/// first that is not.
pub open spec fn all_floats(line: nat, prefix: Seq<char>, pieces: Seq<Seq<char>>) -> Result<Seq<Seq<char>>, ErrorModel> {
    match first_non_float(pieces) {
        Some(p) => Err(parse_error(line, prefix + float_error_message(p))),
        None => Ok(pieces),
    }
}

/// The number `piece` stands for, or `default` if it is none.
pub open spec fn number_or(piece: Seq<char>, default: usize) -> usize {
    match parse_usize(piece) {
        Ok(v) => v,
        Err(_) => default,
    }
}

/// The numbers among `pieces`, in order (pieces that are no number are
/// skipped).
pub open spec fn listed_numbers(pieces: Seq<Seq<char>>) -> Seq<usize>
    decreases pieces.len(),
{
    if pieces.len() == 0 {
        Seq::empty()
    } else {
        match parse_usize(pieces.last()) {
            Ok(v) => listed_numbers(pieces.drop_last()).push(v),
            Err(_) => listed_numbers(pieces.drop_last()),
        }
    }
}

/// `start, start + step, ...` up to `end` inclusive.
pub open spec fn stepped_range(start: int, end: int, step: nat) -> Seq<usize>
    decreases (if end >= start { end - start + 1 } else { 0 }),
{
    if step == 0 || start > end {
        Seq::empty()
    } else {
        seq![start as usize] + stepped_range(start + step, end, step)
    }
}

/// The set `name` of `sets` with `ids` appended (a missing set counts as empty).
pub open spec fn with_appended<T>(sets: Map<Seq<char>, Seq<T>>, name: Seq<char>, ids: Seq<T>) -> Map<Seq<char>, Seq<T>> {
    let cur = if sets.contains_key(name) {
        sets[name]
    } else {
        Seq::empty()
    };
    sets.insert(name, cur + ids)
}

/// The nodes a target of a data line names: a node set of that name, or else
/// the node of that number, or else none.
pub open spec fn resolve_target(node_sets: Map<Seq<char>, Seq<NodeId>>, target: Seq<char>) -> Seq<NodeId> {
    if node_sets.contains_key(target) {
        node_sets[target]
    } else {
        match parse_usize(target) {
            Ok(id) => seq![NodeId(id)],
            Err(_) => Seq::empty(),
        }
    }
}

/// `seq![d]` if `first <= d <= last`, else empty.
pub open spec fn dof_if(first: usize, last: usize, d: usize) -> Seq<usize> {
    if first <= d && d <= last {
        seq![d]
    } else {
        Seq::empty()
    }
}

/// The degrees of freedom (numbered from 1) among `first..=last` that exist
/// (1, 2 and 3), ascending.
pub open spec fn dof_span(first: usize, last: usize) -> Seq<usize> {
    dof_if(first, last, 1) + dof_if(first, last, 2) + dof_if(first, last, 3)
}

/// The entry of a load or boundary condition on `node`, degree of freedom
/// `d` (numbered from 1, stored from 0).
pub open spec fn entry(node: NodeId, d: usize, value: Seq<char>, amplitude: AmplitudeModel, origin: usize) -> NodalModel {
    NodalModel { node_id: node, dof: (d - 1) as usize, value, amplitude, origin_step: origin }
}

/// For each node in turn, one entry per degree of freedom of `dofs`.
pub open spec fn nodal_entries(
    nodes: Seq<NodeId>,
    dofs: Seq<usize>,
    value: Seq<char>,
    amplitude: AmplitudeModel,
    origin: usize,
) -> Seq<NodalModel>
    decreases nodes.len(),
{
    if nodes.len() == 0 {
        Seq::empty()
    } else {
        nodal_entries(nodes.drop_last(), dofs, value, amplitude, origin) + dofs.map_values(
            |d: usize| entry(nodes.last(), d, value, amplitude, origin),
        )
    }
}

/// The amplitude named `name` among the amplitudes defined so far, or the
/// default ramp.
pub open spec fn amplitude_named(st: ParserModel, name: Option<Seq<char>>) -> AmplitudeModel {
    match name {
        Some(n) => if st.project.amplitudes.contains_key(n) {
            st.project.amplitudes[n]
        } else {
            default_amplitude()
        },
        None => default_amplitude(),
    }
}

/// The step a load or boundary condition defined now belongs to (0 before
/// the first step).
pub open spec fn origin_step(st: ParserModel) -> usize {
    if st.current_step is Some {
        st.step_counter as usize
    } else {
        0
    }
}

/// `rows` with `row` appended (a missing table counts as empty).
pub open spec fn add_row(rows: Option<Seq<(Seq<char>, Seq<char>)>>, row: (Seq<char>, Seq<char>)) -> Option<Seq<(Seq<char>, Seq<char>)>> {
    match rows {
        Some(r) => Some(r.push(row)),
        None => Some(seq![row]),
    }
}

/// The index of the first material named `name`.
pub open spec fn material_index(materials: Seq<MaterialModel>, name: Seq<char>) -> Option<nat>
    decreases materials.len(),
{
    if materials.len() == 0 {
        None
    } else {
        match material_index(materials.drop_last(), name) {
            Some(k) => Some(k),
            None => if materials.last().name == name {
                Some((materials.len() - 1) as nat)
            } else {
                None
            },
        }
    }
}

/// `m` with each element of `ids` mapped to `v`.
pub open spec fn assign_all(m: Map<usize, usize>, ids: Seq<ElementId>, v: usize) -> Map<usize, usize>
    decreases ids.len(),
{
    if ids.len() == 0 {
        m
    } else {
        assign_all(m, ids.drop_last(), v).insert(ids.last().0, v)
    }
}

/// `m` with each node of `nodes` mapped to `t`.
pub open spec fn set_all(m: Map<usize, Seq<char>>, nodes: Seq<NodeId>, t: Seq<char>) -> Map<usize, Seq<char>>
    decreases nodes.len(),
{
    if nodes.len() == 0 {
        m
    } else {
        set_all(m, nodes.drop_last(), t).insert(nodes.last().0, t)
    }
}

/// The trimmed, non-empty pieces at even (`parity` 0) or odd (`parity` 1)
/// positions.
pub open spec fn alternate(pieces: Seq<Seq<char>>, parity: int) -> Seq<Seq<char>>
    decreases pieces.len(),
{
    if pieces.len() == 0 {
        Seq::empty()
    } else {
        let rest = alternate(pieces.drop_last(), parity);
        let t = trim(pieces.last());
        if (pieces.len() - 1) % 2 == parity && t.len() > 0 {
            rest.push(t)
        } else {
            rest
        }
    }
}

// ------------------------------------------------------------------
// Updates of the state
// ------------------------------------------------------------------

pub open spec fn with_mesh(st: ParserModel, mesh: MeshModel) -> ParserModel {
    ParserModel { project: ProjectModel { mesh, ..st.project }, ..st }
}

pub open spec fn with_node_sets(st: ParserModel, s: Map<Seq<char>, Seq<NodeId>>) -> ParserModel {
    with_mesh(st, MeshModel { node_sets: s, ..st.project.mesh })
}

pub open spec fn with_element_sets(st: ParserModel, s: Map<Seq<char>, Seq<ElementId>>) -> ParserModel {
    with_mesh(st, MeshModel { element_sets: s, ..st.project.mesh })
}

pub open spec fn with_last_material(st: ParserModel, m: MaterialModel) -> ParserModel {
    ParserModel { materials: st.materials.update(st.materials.len() - 1, m), ..st }
}

/// Adds loads to the step being defined, or to the initial loads.
pub open spec fn add_loads(st: ParserModel, entries: Seq<NodalModel>) -> ParserModel {
    if st.current_step is Some {
        ParserModel { step_loads: st.step_loads + entries, ..st }
    } else {
        ParserModel { project: ProjectModel { initial_loads: st.project.initial_loads + entries, ..st.project }, ..st }
    }
}

/// Adds boundary conditions to the step being defined, or to the initial ones.
pub open spec fn add_bcs(st: ParserModel, entries: Seq<NodalModel>) -> ParserModel {
    if st.current_step is Some {
        ParserModel { step_bcs: st.step_bcs + entries, ..st }
    } else {
        ParserModel { project: ProjectModel { initial_bcs: st.project.initial_bcs + entries, ..st.project }, ..st }
    }
}

/// Ends the step being defined, if any: it gets the current loads and
/// boundary conditions and is appended to the project's steps.
pub open spec fn close_step(st: ParserModel) -> ParserModel {
    match st.current_step {
        Some(s) => ParserModel {
            project: ProjectModel {
                steps: st.project.steps.push(StepModel { loads: st.step_loads, bcs: st.step_bcs, ..s }),
                ..st.project
            },
            current_step: None,
            ..st
        },
        None => st,
    }
}

/// The project at the end of the deck: the last step closed, the materials
/// appended to the project's.
pub open spec fn finished(st: ParserModel) -> ProjectModel {
    let p = close_step(st).project;
    ProjectModel { materials: p.materials + st.materials, ..p }
}

// ------------------------------------------------------------------
// Data lines of the current keyword
// ------------------------------------------------------------------

/// `ID, X, Y, Z` under `*NODE`.
pub open spec fn node_data(st: ParserModel, line: Seq<char>) -> Result<ParserModel, ErrorModel> {
    match node_of_line(line) {
        Some(n) => Ok(with_mesh(st, MeshModel { nodes: st.project.mesh.nodes.insert(n.id.0, n), ..st.project.mesh })),
        None => Err(parse_error(st.line_nr, "Invalid node definition: "@ + line)),
    }
}

/// `ID, N1, N2, ...` under `*ELEMENT`: the element is stored and, if the card
/// names a (non-empty) set, added to it.
pub open spec fn element_data(st: ParserModel, line: Seq<char>) -> Result<ParserModel, ErrorModel> {
    match st.element_type {
        None => Ok(st),
        Some(t) => match element_of_line(t, line) {
            Err(e) => Err(e),
            Ok(e) => {
                let sets = match st.elset_name {
                    Some(n) => if n.len() > 0 {
                        with_appended(st.project.mesh.element_sets, n, seq![e.id])
                    } else {
                        st.project.mesh.element_sets
                    },
                    None => st.project.mesh.element_sets,
                };
                Ok(with_mesh(st, MeshModel {
                    elements: st.project.mesh.elements.insert(e.id.0, e),
                    element_sets: sets,
                    ..st.project.mesh
                }))
            },
        },
    }
}

/// `E, NU[, T]` under `*ELASTIC`: a row of the Young's modulus and of the
/// Poisson ratio tables of the last material (temperature `0` if none given).
pub open spec fn elastic_data(st: ParserModel, line: Seq<char>) -> Result<ParserModel, ErrorModel> {
    if st.materials.len() == 0 {
        Ok(st)
    } else {
        let p = positional_arguments(line);
        match all_floats(st.line_nr, "Invalid elastic constant: "@, p) {
            Err(e) => Err(e),
            Ok(_) => if p.len() >= 2 {
                let temp = if p.len() >= 3 { p[2] } else { "0"@ };
                let m = st.materials.last();
                Ok(with_last_material(st, MaterialModel {
                    youngs_modulus: add_row(m.youngs_modulus, (temp, p[0])),
                    poisson_ratio: add_row(m.poisson_ratio, (temp, p[1])),
                    ..m
                }))
            } else {
                Ok(st)
            },
        }
    }
}

/// `RHO[, T]` under `*DENSITY`.
pub open spec fn density_data(st: ParserModel, line: Seq<char>) -> Result<ParserModel, ErrorModel> {
    if st.materials.len() == 0 {
        Ok(st)
    } else {
        let p = positional_arguments(line);
        match all_floats(st.line_nr, "Invalid density value: "@, p) {
            Err(e) => Err(e),
            Ok(_) => if p.len() >= 1 {
                let temp = if p.len() >= 2 { p[1] } else { "0"@ };
                let m = st.materials.last();
                Ok(with_last_material(st, MaterialModel { density: add_row(m.density, (temp, p[0])), ..m }))
            } else {
                Ok(st)
            },
        }
    }
}

/// `ALPHA[, T]` under `*EXPANSION`.
pub open spec fn expansion_data(st: ParserModel, line: Seq<char>) -> Result<ParserModel, ErrorModel> {
    if st.materials.len() == 0 {
        Ok(st)
    } else {
        let p = positional_arguments(line);
        match all_floats(st.line_nr, "Invalid expansion constant: "@, p) {
            Err(e) => Err(e),
            Ok(_) => if p.len() >= 1 {
                let temp = if p.len() >= 2 { p[1] } else { "0"@ };
                let m = st.materials.last();
                Ok(with_last_material(st, MaterialModel {
                    thermal_expansion: add_row(m.thermal_expansion, (temp, p[0])),
                    ..m
                }))
            } else {
                Ok(st)
            },
        }
    }
}

/// `TARGET, T` under `*INITIAL CONDITIONS, TYPE=TEMPERATURE`.
pub open spec fn initial_conditions_data(st: ParserModel, line: Seq<char>) -> Result<ParserModel, ErrorModel> {
    if st.ic_type == Some("TEMPERATURE"@) {
        let p = positional_arguments(line);
        if p.len() >= 2 {
            match float_or(st.line_nr, "Invalid temperature value: "@, p[1]) {
                Err(e) => Err(e),
                Ok(t) => Ok(ParserModel {
                    project: ProjectModel {
                        initial_temperatures: set_all(
                            st.project.initial_temperatures,
                            resolve_target(st.project.mesh.node_sets, p[0]),
                            t,
                        ),
                        ..st.project
                    },
                    ..st
                }),
            }
        } else {
            Ok(st)
        }
    } else {
        Ok(st)
    }
}

/// `N` under `*DEPVAR`: the number of state variables of the last material.
pub open spec fn depvar_data(st: ParserModel, line: Seq<char>) -> Result<ParserModel, ErrorModel> {
    if st.materials.len() == 0 {
        Ok(st)
    } else {
        let p = positional_arguments(line);
        if p.len() >= 1 {
            match parse_usize(p[0]) {
                Err(k) => Err(parse_error(st.line_nr, "Invalid DEPVAR value: "@ + k.spec_message())),
                Ok(n) => Ok(with_last_material(st, MaterialModel { num_depvars: n, ..st.materials.last() })),
            }
        } else {
            Ok(st)
        }
    }
}

/// A (trimmed, non-empty) data line read under the current keyword.
pub open spec fn data_line(st: ParserModel, line: Seq<char>) -> Result<ParserModel, ErrorModel> {
    match st.keyword {
        Some(Keyword::Node) => node_data(st, line),
        Some(Keyword::Element) => element_data(st, line),
        Some(Keyword::Elastic) => elastic_data(st, line),
        Some(Keyword::Density) => density_data(st, line),
        Some(Keyword::Expansion) => expansion_data(st, line),
        Some(Keyword::InitialConditions) => initial_conditions_data(st, line),
        Some(Keyword::Depvar) => depvar_data(st, line),
        _ => Ok(st),
    }
}

/// The literal reads as NaN under `f64::from_str`: `nan` in any case, with
/// an optional sign.
pub open spec fn is_nan_literal(s: Seq<char>) -> bool {
    let b = if s.len() > 0 && (s[0] == '+' || s[0] == '-') { s.drop_first() } else { s };
    eq_ignore_case(b, "nan"@)
}

/// Appending a row with temperature `temp` to a table and sorting the table
/// by temperature panics: the table already has a row, and a temperature of
/// the grown table is NaN, which compares with no temperature.
pub open spec fn row_panics(rows: Option<Seq<(Seq<char>, Seq<char>)>>, temp: Seq<char>) -> bool {
    match rows {
        Some(r) => r.len() > 0 && (is_nan_literal(temp) || exists|k: int|
            0 <= k < r.len() && is_nan_literal(#[trigger] r[k].0)),
        None => false,
    }
}

/// The data line `line` adds a row to a table of the last material whose
/// sorting panics.
pub open spec fn table_row_panics(st: ParserModel, line: Seq<char>) -> bool {
    let p = positional_arguments(line);
    &&& st.materials.len() > 0
    &&& match st.keyword {
        Some(Keyword::Elastic) => p.len() >= 2 && {
            let temp = if p.len() >= 3 { p[2] } else { "0"@ };
            row_panics(st.materials.last().youngs_modulus, temp) || row_panics(
                st.materials.last().poisson_ratio,
                temp,
            )
        },
        Some(Keyword::Density) => p.len() >= 1 && row_panics(
            st.materials.last().density,
            if p.len() >= 2 { p[1] } else { "0"@ },
        ),
        Some(Keyword::Expansion) => p.len() >= 1 && row_panics(
            st.materials.last().thermal_expansion,
            if p.len() >= 2 { p[1] } else { "0"@ },
        ),
        _ => false,
    }
}

/// A data line read under the current keyword: the new state, its error, or
/// a panic where it adds a row to a table whose sorting panics.
pub open spec fn data_step(st: ParserModel, line: Seq<char>) -> Result<ParserModel, Stop> {
    match data_line(st, line) {
        Ok(s) => if table_row_panics(st, line) {
            Err(Stop::Panic)
        } else {
            Ok(s)
        },
        Err(e) => Err(Stop::Error(e)),
    }
}

// ------------------------------------------------------------------
// Data lines consumed by a keyword card
// ------------------------------------------------------------------

/// A line of a `*NSET` block: `START, END[, STEP]` with `GENERATE`, else a
/// list of node numbers. `STEP` 0 panics.
pub open spec fn nset_line(st: ParserModel, line: Seq<char>) -> Result<ParserModel, Stop> {
    match st.set_name {
        None => Ok(st),
        Some(name) => {
            let p = positional_arguments(line);
            if st.is_generate {
                if p.len() >= 2 {
                    let step = if p.len() > 2 { number_or(p[2], 1) } else { 1 };
                    if step == 0 {
                        Err(Stop::Panic)
                    } else {
                        let ids = stepped_range(number_or(p[0], 0) as int, number_or(p[1], 0) as int, step as nat);
                        Ok(with_node_sets(st, with_appended(
                            st.project.mesh.node_sets,
                            name,
                            ids.map_values(|x: usize| NodeId(x)),
                        )))
                    }
                } else {
                    Ok(st)
                }
            } else {
                Ok(with_node_sets(st, with_appended(
                    st.project.mesh.node_sets,
                    name,
                    listed_numbers(p).map_values(|x: usize| NodeId(x)),
                )))
            }
        },
    }
}

/// A line of an `*ELSET` block: `START, END[, STEP]` with `GENERATE`; else a
/// list of element numbers, or the name of another element set whose
/// elements are added. `STEP` 0 panics.
pub open spec fn elset_line(st: ParserModel, line: Seq<char>) -> Result<ParserModel, Stop> {
    match st.set_name {
        None => Ok(st),
        Some(name) => {
            let p = positional_arguments(line);
            let sets = st.project.mesh.element_sets;
            if st.is_generate {
                if p.len() >= 2 {
                    let step = if p.len() > 2 { number_or(p[2], 1) } else { 1 };
                    if step == 0 {
                        Err(Stop::Panic)
                    } else {
                        let ids = stepped_range(number_or(p[0], 0) as int, number_or(p[1], 0) as int, step as nat);
                        Ok(with_element_sets(st, with_appended(sets, name, ids.map_values(|x: usize| ElementId(x)))))
                    }
                } else {
                    Ok(st)
                }
            } else {
                let ids = listed_numbers(p);
                if !contains(line, ',') && ids.len() == 0 {
                    let other = trim(line);
                    if sets.contains_key(other) {
                        Ok(with_element_sets(st, with_appended(sets, name, sets[other])))
                    } else {
                        Ok(st)
                    }
                } else {
                    Ok(with_element_sets(st, with_appended(sets, name, ids.map_values(|x: usize| ElementId(x)))))
                }
            }
        },
    }
}

/// A line `TARGET, FIRST[, LAST[, VALUE]]` of a `*BOUNDARY` block: one
/// condition per node of the target and per existing degree of freedom
/// between `FIRST` and `LAST` (`LAST` defaults to `FIRST`, the value to `0`).
pub open spec fn boundary_line(st: ParserModel, line: Seq<char>, amplitude: Option<Seq<char>>) -> Result<ParserModel, ErrorModel> {
    let p = positional_arguments(line);
    if p.len() < 2 {
        Ok(st)
    } else {
        match parse_usize(p[1]) {
            Err(k) => Err(parse_error(st.line_nr, "Invalid first DOF: "@ + k.spec_message())),
            Ok(first) => {
                let last = if p.len() > 2 && p[2].len() > 0 { parse_usize(p[2]) } else { Ok(first) };
                match last {
                    Err(k) => Err(parse_error(st.line_nr, "Invalid last DOF: "@ + k.spec_message())),
                    Ok(last) => {
                        let value = if p.len() > 3 {
                            float_or(st.line_nr, "Invalid boundary value: "@, p[3])
                        } else {
                            Ok("0"@)
                        };
                        match value {
                            Err(e) => Err(e),
                            Ok(v) => Ok(add_bcs(st, nodal_entries(
                                resolve_target(st.project.mesh.node_sets, p[0]),
                                dof_span(first, last),
                                v,
                                amplitude_named(st, amplitude),
                                origin_step(st),
                            ))),
                        }
                    },
                }
            },
        }
    }
}

/// A line `TARGET, DOF, VALUE` of a `*CLOAD` block: one load per node of the
/// target, if the degree of freedom exists.
pub open spec fn cload_line(st: ParserModel, line: Seq<char>, amplitude: Option<Seq<char>>) -> Result<ParserModel, ErrorModel> {
    let p = positional_arguments(line);
    if p.len() < 3 {
        Ok(st)
    } else {
        match parse_usize(p[1]) {
            Err(k) => Err(parse_error(st.line_nr, "Invalid DOF: "@ + k.spec_message())),
            Ok(dof) => match float_or(st.line_nr, "Invalid load value: "@, p[2]) {
                Err(e) => Err(e),
                Ok(v) => Ok(add_loads(st, nodal_entries(
                    resolve_target(st.project.mesh.node_sets, p[0]),
                    dof_span(dof, dof),
                    v,
                    amplitude_named(st, amplitude),
                    origin_step(st),
                ))),
            },
        }
    }
}

/// The kinds of keyword cards that consume the data lines after them.
pub enum Card {
    Nset,
    Elset,
    Boundary(Option<Seq<char>>),
    Cload(Option<Seq<char>>),
    NodeFile,
    ElFile,
}

pub open spec fn lift(r: Result<ParserModel, ErrorModel>) -> Result<ParserModel, Stop> {
    match r {
        Ok(s) => Ok(s),
        Err(e) => Err(Stop::Error(e)),
    }
}

/// One data line of a card's block.
pub open spec fn card_line(card: Card, st: ParserModel, line: Seq<char>) -> Result<ParserModel, Stop> {
    match card {
        Card::Nset => nset_line(st, line),
        Card::Elset => elset_line(st, line),
        Card::Boundary(a) => lift(boundary_line(st, line, a)),
        Card::Cload(a) => lift(cload_line(st, line, a)),
        Card::NodeFile => Ok(ParserModel {
            project: ProjectModel {
                nodal_output: st.project.nodal_output + positional_arguments(line),
                ..st.project
            },
            ..st
        }),
        Card::ElFile => Ok(ParserModel {
            project: ProjectModel {
                element_output: st.project.element_output + positional_arguments(line),
                ..st.project
            },
            ..st
        }),
    }
}

/// Lines `lo..hi` of a card's block, read in order.
pub open spec fn card_block(ls: Seq<Seq<char>>, lo: int, hi: int, card: Card, st: ParserModel) -> Result<ParserModel, Stop>
    decreases hi - lo,
{
    if hi <= lo {
        Ok(st)
    } else {
        match card_block(ls, lo, hi - 1, card, st) {
            Ok(s) => card_line(card, s, ls[hi - 1]),
            Err(e) => Err(e),
        }
    }
}

/// The first line at or after `k` that starts with `*`, or the end.
pub open spec fn block_end(ls: Seq<Seq<char>>, k: int) -> int
    decreases ls.len() - k,
{
    if k >= ls.len() {
        ls.len() as int
    } else if starts_with(ls[k], "*"@) {
        k
    } else {
        block_end(ls, k + 1)
    }
}

/// The time and value columns of lines `lo..hi` of an `*AMPLITUDE` block:
/// pieces at even positions are times, at odd positions values.
pub open spec fn amplitude_rows(ls: Seq<Seq<char>>, lo: int, hi: int, line: nat) -> Result<(Seq<Seq<char>>, Seq<Seq<char>>), ErrorModel>
    decreases hi - lo,
{
    if hi <= lo {
        Ok((Seq::empty(), Seq::empty()))
    } else {
        match amplitude_rows(ls, lo, hi - 1, line) {
            Err(e) => Err(e),
            Ok((t, v)) => {
                let pieces = split(ls[hi - 1], ',');
                match all_floats(line, "Invalid amplitude time value: "@, alternate(pieces, 0)) {
                    Err(e) => Err(e),
                    Ok(t1) => match all_floats(line, "Invalid amplitude value: "@, alternate(pieces, 1)) {
                        Err(e) => Err(e),
                        Ok(v1) => Ok((t + t1, v + v1)),
                    },
                }
            },
        }
    }
}

// ------------------------------------------------------------------
// Keyword cards
// ------------------------------------------------------------------

/// The keyword of a keyword line: its first comma-separated piece without the
/// `*`, trimmed and uppercased.
pub open spec fn keyword_text(line: Seq<char>) -> Seq<char> {
    let p0 = trim(split(line, ',')[0]);
    let name = if p0.len() > 0 && p0[0] == '*' { p0.drop_first() } else { Seq::empty() };
    upper(trim(name))
}

/// The solver a `*STATIC` card asks for with `SOLVER=`.
pub open spec fn solver_named(v: Option<Seq<char>>) -> Result<SolverType, ErrorModel> {
    match v {
        None => Ok(SolverType::Default),
        Some(s) => if s == "DIRECT"@ {
            Ok(SolverType::Direct)
        } else if s == "ITERATIVE"@ {
            Ok(SolverType::Iterative)
        } else {
            Err(ErrorModel::UnknownSolver(s))
        },
    }
}

/// The time incrementation a data line after `*STATIC` gives: with four
/// pieces or more, initial increment, time period, minimum and maximum
/// increment; else `inc` unchanged.
pub open spec fn increment_of(line: nat, data: Seq<char>, inc: IncrementModel) -> Result<IncrementModel, ErrorModel> {
    let p = positional_arguments(data);
    if p.len() >= 4 {
        match float_or(line, "Invalid initial time increment: "@, p[0]) {
            Err(e) => Err(e),
            Ok(a) => match float_or(line, "Invalid time period: "@, p[1]) {
                Err(e) => Err(e),
                Ok(b) => match float_or(line, "Invalid min time increment: "@, p[2]) {
                    Err(e) => Err(e),
                    Ok(c) => match float_or(line, "Invalid max time increment: "@, p[3]) {
                        Err(e) => Err(e),
                        Ok(d) => Ok(IncrementModel {
                            initial_time_increment: a,
                            time_period: b,
                            min_time_increment: c,
                            max_time_increment: d,
                            ..inc
                        }),
                    },
                },
            },
        }
    } else {
        Ok(inc)
    }
}

/// `*STEP` (line `i`): the first step inherits the loads and boundary
/// conditions defined before it; the step being defined is closed. If the
/// next line is a `*STATIC` card, a static step starts (with the time
/// incrementation of the line after it, if that is a data line).
pub open spec fn step_card(ls: Seq<Seq<char>>, i: int, st: ParserModel) -> Result<(ParserModel, int), Stop> {
    let line = ls[i];
    let st1 = if st.step_counter == 0 {
        ParserModel { step_loads: st.project.initial_loads, step_bcs: st.project.initial_bcs, ..st }
    } else {
        st
    };
    let st2 = close_step(ParserModel { step_counter: st1.step_counter + 1, ..st1 });
    let nlgeom = keyword_arguments(line).contains_key("NLGEOM"@);
    let max_iterations = match keyword_value(line, "INC"@) {
        Some(v) => number_or(v, 10000),
        None => 10000,
    };
    if i + 1 < ls.len() && starts_with(ls[i + 1], "*STATIC"@) {
        match solver_named(keyword_value(ls[i + 1], "SOLVER"@)) {
            Err(e) => Err(Stop::Error(e)),
            Ok(solver) => {
                let inc = IncrementModel { max_iterations, ..default_increment() };
                if i + 2 < ls.len() && !starts_with(ls[i + 2], "*"@) {
                    match increment_of(st.line_nr, ls[i + 2], inc) {
                        Err(e) => Err(Stop::Error(e)),
                        Ok(inc2) => Ok((ParserModel {
                            current_step: Some(StepModel { solver, increment: inc2, loads: Seq::empty(), bcs: Seq::empty(), nlgeom }),
                            ..st2
                        }, i + 3)),
                    }
                } else {
                    Ok((ParserModel {
                        current_step: Some(StepModel { solver, increment: inc, loads: Seq::empty(), bcs: Seq::empty(), nlgeom }),
                        ..st2
                    }, i + 2))
                }
            },
        }
    } else {
        Ok((st2, i + 1))
    }
}

/// `*MATERIAL, NAME=...`: a new material with no properties.
pub open spec fn material_card(line: Seq<char>, st: ParserModel) -> Result<ParserModel, ErrorModel> {
    match keyword_value(line, "NAME"@) {
        None => Err(parse_error(st.line_nr, "Material name not found"@)),
        Some(name) => Ok(ParserModel {
            materials: st.materials.push(MaterialModel {
                name,
                density: None,
                youngs_modulus: None,
                poisson_ratio: None,
                thermal_expansion: None,
                reference_temperature: "0"@,
                num_depvars: 0,
            }),
            ..st
        }),
    }
}

/// `*EXPANSION[, ZERO=T]`: the reference temperature of the last material.
pub open spec fn expansion_card(line: Seq<char>, st: ParserModel) -> Result<ParserModel, ErrorModel> {
    if st.materials.len() > 0 {
        match keyword_value(line, "ZERO"@) {
            Some(z) => match float_or(st.line_nr, "Invalid ZERO value in *EXPANSION: "@, z) {
                Err(e) => Err(e),
                Ok(z) => Ok(with_last_material(st, MaterialModel { reference_temperature: z, ..st.materials.last() })),
            },
            None => Ok(st),
        }
    } else {
        Ok(st)
    }
}

/// `*SOLID SECTION, ELSET=..., MATERIAL=...`: every element of the set gets
/// the (first) material of that name.
pub open spec fn solid_section_card(line: Seq<char>, st: ParserModel) -> Result<ParserModel, ErrorModel> {
    match keyword_value(line, "ELSET"@) {
        None => Err(parse_error(st.line_nr, "Elset not found in *SOLID SECTION"@)),
        Some(elset) => match keyword_value(line, "MATERIAL"@) {
            None => Err(parse_error(st.line_nr, "Material not found in *SOLID SECTION"@)),
            Some(mat) => match material_index(st.materials, mat) {
                None => Err(ErrorModel::MaterialNotFound(mat)),
                Some(k) => if st.project.mesh.element_sets.contains_key(elset) {
                    Ok(ParserModel {
                        project: ProjectModel {
                            element_materials: assign_all(
                                st.project.element_materials,
                                st.project.mesh.element_sets[elset],
                                k as usize,
                            ),
                            ..st.project
                        },
                        ..st
                    })
                } else {
                    Err(ErrorModel::ElsetNotFound(elset))
                },
            },
        },
    }
}

/// The shift of an amplitude: the value given if it is a float literal,
/// else `0`.
pub open spec fn shift_of(v: Option<Seq<char>>) -> Seq<char> {
    match v {
        Some(s) => if is_float_literal(s) { s } else { "0"@ },
        None => "0"@,
    }
}

/// `*AMPLITUDE, NAME=...[, TIME=TOTAL TIME][, SHIFTX=..][, SHIFTY=..]` (line
/// `i`), with its block of time-value pairs ending at `end`.
pub open spec fn amplitude_card(ls: Seq<Seq<char>>, i: int, end: int, st: ParserModel) -> Result<ParserModel, ErrorModel> {
    let line = ls[i];
    match keyword_value(line, "NAME"@) {
        None => Err(parse_error(st.line_nr, "Amplitude card is missing a Name= argument"@)),
        Some(name) => match amplitude_rows(ls, i + 1, end, st.line_nr) {
            Err(e) => Err(e),
            Ok((t, v)) => Ok(ParserModel {
                project: ProjectModel {
                    amplitudes: st.project.amplitudes.insert(name, AmplitudeModel {
                        total_time: keyword_value(line, "TIME"@) == Some("TOTAL TIME"@),
                        shift_x: shift_of(keyword_value(line, "SHIFTX"@)),
                        shift_y: shift_of(keyword_value(line, "SHIFTY"@)),
                        data: Some((t, v)),
                    }),
                    ..st.project
                },
                ..st
            }),
        },
    }
}

/// `OP=NEW` on a `*BOUNDARY` card drops the boundary conditions defined so
/// far (of the step being defined, or the initial ones).
pub open spec fn boundary_reset(line: Seq<char>, st: ParserModel) -> ParserModel {
    if keyword_value(line, "OP"@) == Some("NEW"@) {
        if st.current_step is Some {
            ParserModel { step_bcs: Seq::empty(), ..st }
        } else {
            ParserModel { project: ProjectModel { initial_bcs: Seq::empty(), ..st.project }, ..st }
        }
    } else {
        st
    }
}

/// `OP=NEW` on a `*CLOAD` card drops the loads defined so far.
pub open spec fn cload_reset(line: Seq<char>, st: ParserModel) -> ParserModel {
    if keyword_value(line, "OP"@) == Some("NEW"@) {
        if st.current_step is Some {
            ParserModel { step_loads: Seq::empty(), ..st }
        } else {
            ParserModel { project: ProjectModel { initial_loads: Seq::empty(), ..st.project }, ..st }
        }
    } else {
        st
    }
}

pub open spec fn at_line(r: Result<ParserModel, ErrorModel>, j: int) -> Result<(ParserModel, int), Stop> {
    match r {
        Ok(s) => Ok((s, j)),
        Err(e) => Err(Stop::Error(e)),
    }
}

pub open spec fn block_at(r: Result<ParserModel, Stop>, j: int) -> Result<(ParserModel, int), Stop> {
    match r {
        Ok(s) => Ok((s, j)),
        Err(e) => Err(e),
    }
}

/// The keyword card on line `i` (which starts with `*`): the new state and
/// the line to read next.
pub open spec fn keyword_card(ls: Seq<Seq<char>>, i: int, st: ParserModel) -> Result<(ParserModel, int), Stop> {
    let line = ls[i];
    let name = keyword_text(line);
    match keyword_named(replace_char(name, ' ', '_')) {
        None => Err(Stop::Error(ErrorModel::UnsupportedKeyword { line: st.line_nr, keyword: name })),
        Some(kw) => {
            let st = ParserModel { keyword: Some(kw), ..st };
            let end = block_end(ls, i + 1);
            match kw {
                Keyword::Element => Ok((ParserModel {
                    element_type: keyword_value(line, "TYPE"@),
                    elset_name: keyword_value(line, "ELSET"@),
                    ..st
                }, i + 1)),
                Keyword::Nset => block_at(card_block(ls, i + 1, end, Card::Nset, ParserModel {
                    set_name: keyword_value(line, "NSET"@),
                    is_generate: keyword_arguments(line).contains_key("GENERATE"@),
                    ..st
                }), end),
                Keyword::Elset => block_at(card_block(ls, i + 1, end, Card::Elset, ParserModel {
                    set_name: keyword_value(line, "ELSET"@),
                    is_generate: keyword_arguments(line).contains_key("GENERATE"@),
                    ..st
                }), end),
                Keyword::Material => at_line(material_card(line, st), i + 1),
                Keyword::Expansion => at_line(expansion_card(line, st), i + 1),
                Keyword::InitialConditions => Ok((ParserModel {
                    ic_type: match keyword_value(line, "TYPE"@) {
                        Some(t) => Some(upper(t)),
                        None => None,
                    },
                    ..st
                }, i + 1)),
                Keyword::SolidSection => at_line(solid_section_card(line, st), i + 1),
                Keyword::Step => step_card(ls, i, st),
                Keyword::EndStep => Ok((close_step(st), i + 1)),
                Keyword::Amplitude => at_line(amplitude_card(ls, i, end, st), end),
                Keyword::Boundary => block_at(card_block(
                    ls,
                    i + 1,
                    end,
                    Card::Boundary(keyword_value(line, "AMPLITUDE"@)),
                    boundary_reset(line, st),
                ), end),
                Keyword::Cload => block_at(card_block(
                    ls,
                    i + 1,
                    end,
                    Card::Cload(keyword_value(line, "AMPLITUDE"@)),
                    cload_reset(line, st),
                ), end),
                Keyword::NodeFile => block_at(card_block(ls, i + 1, end, Card::NodeFile, st), end),
                Keyword::ElFile => block_at(card_block(ls, i + 1, end, Card::ElFile, st), end),
                _ => Ok((st, i + 1)),
            }
        },
    }
}

// ------------------------------------------------------------------
// The whole deck
// ------------------------------------------------------------------

pub proof fn lemma_block_end(ls: Seq<Seq<char>>, k: int)
    requires
        0 <= k,
    ensures
        k <= block_end(ls, k) || k > ls.len(),
        block_end(ls, k) <= ls.len(),
        forall|j: int| k <= j < block_end(ls, k) ==> !starts_with(#[trigger] ls[j], "*"@),
        block_end(ls, k) < ls.len() ==> starts_with(ls[block_end(ls, k)], "*"@),
    decreases ls.len() - k,
{
    if k < ls.len() && !starts_with(ls[k], "*"@) {
        lemma_block_end(ls, k + 1);
    }
}

pub proof fn lemma_card_block_counter(ls: Seq<Seq<char>>, lo: int, hi: int, card: Card, st: ParserModel)
    ensures
        card_block(ls, lo, hi, card, st) matches Ok(s) ==> s.step_counter == st.step_counter,
    decreases hi - lo,
{
    if hi > lo {
        lemma_card_block_counter(ls, lo, hi - 1, card, st);
    }
}

/// A keyword card moves on to a later line, at most to the end, and counts
/// at most one more step.
pub proof fn lemma_keyword_card_advances(ls: Seq<Seq<char>>, i: int, st: ParserModel)
    requires
        0 <= i < ls.len(),
    ensures
        keyword_card(ls, i, st) matches Ok((s, j)) ==> i < j <= ls.len() && s.step_counter <= st.step_counter + 1,
{
    lemma_block_end(ls, i + 1);
    let st1 = ParserModel { keyword: keyword_named(replace_char(keyword_text(ls[i]), ' ', '_')), ..st };
    let end = block_end(ls, i + 1);
    let line = ls[i];
    lemma_card_block_counter(ls, i + 1, end, Card::Nset, ParserModel {
        set_name: keyword_value(line, "NSET"@),
        is_generate: keyword_arguments(line).contains_key("GENERATE"@),
        ..st1
    });
    lemma_card_block_counter(ls, i + 1, end, Card::Elset, ParserModel {
        set_name: keyword_value(line, "ELSET"@),
        is_generate: keyword_arguments(line).contains_key("GENERATE"@),
        ..st1
    });
    lemma_card_block_counter(ls, i + 1, end, Card::Boundary(keyword_value(line, "AMPLITUDE"@)), boundary_reset(line, st1));
    lemma_card_block_counter(ls, i + 1, end, Card::Cload(keyword_value(line, "AMPLITUDE"@)), cload_reset(line, st1));
    lemma_card_block_counter(ls, i + 1, end, Card::NodeFile, st1);
    lemma_card_block_counter(ls, i + 1, end, Card::ElFile, st1);
}

/// Lines `i..` of the deck, read from state `st`: the state at the end, or
/// why the parser stopped.
pub open spec fn run(ls: Seq<Seq<char>>, i: int, st: ParserModel) -> Result<ParserModel, Stop>
    decreases ls.len() - i,
{
    if i < 0 || i >= ls.len() {
        Ok(st)
    } else {
        let st1 = ParserModel { line_nr: (i + 1) as nat, ..st };
        if starts_with(ls[i], "*"@) {
            proof {
                lemma_keyword_card_advances(ls, i, st1);
            }
            match keyword_card(ls, i, st1) {
                Ok((st2, j)) => run(ls, j, st2),
                Err(e) => Err(e),
            }
        } else {
            let t = trim(ls[i]);
            if t.len() == 0 || st1.keyword is None {
                run(ls, i + 1, st1)
            } else {
                match data_step(st1, t) {
                    Ok(st2) => run(ls, i + 1, st2),
                    Err(e) => Err(e),
                }
            }
        }
    }
}

/// What the parser makes of the deck `text` from state `st`.
pub open spec fn deck_outcome(text: Seq<char>, st: ParserModel) -> Result<ParserModel, Stop> {
    run(lines(text), 0, st)
}

/// Whether the parser panics on the deck `text` from state `st`.
pub open spec fn deck_panics(text: Seq<char>, st: ParserModel) -> bool {
    deck_outcome(text, st) == Err::<ParserModel, Stop>(Stop::Panic)
}

/// A data line does not count steps.
pub proof fn lemma_data_line_counter(st: ParserModel, line: Seq<char>)
    ensures
        data_line(st, line) matches Ok(s) ==> s.step_counter == st.step_counter,
{
}

// ------------------------------------------------------------------
// What every state of the parser keeps
// ------------------------------------------------------------------

/// Every entry has a degree of freedom (stored from 0) below 3.
pub open spec fn dofs_below_3(s: Seq<NodalModel>) -> bool {
    forall|k: int| 0 <= k < s.len() ==> (#[trigger] s[k]).dof < 3
}

/// Every entry belongs to step `n`.
pub open spec fn origins_are(s: Seq<NodalModel>, n: usize) -> bool {
    forall|k: int| 0 <= k < s.len() ==> (#[trigger] s[k]).origin_step == n
}

/// Every value of `m` is below `n`.
pub open spec fn values_below(m: Map<usize, usize>, n: nat) -> bool {
    forall|e: usize| #[trigger] m.contains_key(e) ==> m[e] < n
}

/// What every state of the parser keeps: loads and boundary conditions
/// (defined before the first step, of the step being defined, and of the
/// steps already closed) have a degree of freedom 0, 1 or 2; those defined
/// before the first step belong to step 0; the material of each element is
/// an index into the materials defined.
pub open spec fn parse_invariant(st: ParserModel) -> bool {
    &&& dofs_below_3(st.project.initial_loads)
    &&& dofs_below_3(st.project.initial_bcs)
    &&& origins_are(st.project.initial_loads, 0)
    &&& origins_are(st.project.initial_bcs, 0)
    &&& dofs_below_3(st.step_loads)
    &&& dofs_below_3(st.step_bcs)
    &&& forall|k: int| 0 <= k < st.project.steps.len() ==> dofs_below_3((#[trigger] st.project.steps[k]).loads)
        && dofs_below_3(st.project.steps[k].bcs)
    &&& st.project.materials.len() == 0
    &&& values_below(st.project.element_materials, st.materials.len())
}

proof fn lemma_dofs_concat(a: Seq<NodalModel>, b: Seq<NodalModel>)
    requires
        dofs_below_3(a),
        dofs_below_3(b),
    ensures
        dofs_below_3(a + b),
{
    assert forall|k: int| 0 <= k < (a + b).len() implies (#[trigger] (a + b)[k]).dof < 3 by {
        if k < a.len() {
            assert((a + b)[k] == a[k]);
        } else {
            assert((a + b)[k] == b[k - a.len()]);
        }
    }
}

proof fn lemma_origins_concat(a: Seq<NodalModel>, b: Seq<NodalModel>, n: usize)
    requires
        origins_are(a, n),
        origins_are(b, n),
    ensures
        origins_are(a + b, n),
{
    assert forall|k: int| 0 <= k < (a + b).len() implies (#[trigger] (a + b)[k]).origin_step == n by {
        if k < a.len() {
            assert((a + b)[k] == a[k]);
        } else {
            assert((a + b)[k] == b[k - a.len()]);
        }
    }
}

proof fn lemma_entries_origins(nodes: Seq<NodeId>, dofs: Seq<usize>, value: Seq<char>, amplitude: AmplitudeModel, origin: usize)
    ensures
        origins_are(nodal_entries(nodes, dofs, value, amplitude, origin), origin),
    decreases nodes.len(),
{
    if nodes.len() > 0 {
        lemma_entries_origins(nodes.drop_last(), dofs, value, amplitude, origin);
        let node = nodes.last();
        let m = dofs.map_values(|x: usize| entry(node, x, value, amplitude, origin));
        assert(origins_are(m, origin));
        lemma_origins_concat(nodal_entries(nodes.drop_last(), dofs, value, amplitude, origin), m, origin);
    }
}

proof fn lemma_entries_dofs(nodes: Seq<NodeId>, first: usize, last: usize, value: Seq<char>, amplitude: AmplitudeModel, origin: usize)
    ensures
        dofs_below_3(nodal_entries(nodes, dof_span(first, last), value, amplitude, origin)),
    decreases nodes.len(),
{
    if nodes.len() > 0 {
        lemma_entries_dofs(nodes.drop_last(), first, last, value, amplitude, origin);
        let d = dof_span(first, last);
        let node = nodes.last();
        let m = d.map_values(|x: usize| entry(node, x, value, amplitude, origin));
        assert forall|k: int| 0 <= k < m.len() implies (#[trigger] m[k]).dof < 3 by {
            assert(1 <= d[k] <= 3);
        }
        lemma_dofs_concat(nodal_entries(nodes.drop_last(), d, value, amplitude, origin), m);
    }
}

proof fn lemma_assign_all_below(m: Map<usize, usize>, ids: Seq<ElementId>, v: usize, n: nat)
    requires
        values_below(m, n),
        v < n,
    ensures
        values_below(assign_all(m, ids, v), n),
    decreases ids.len(),
{
    if ids.len() > 0 {
        lemma_assign_all_below(m, ids.drop_last(), v, n);
    }
}

proof fn lemma_material_index_below(ms: Seq<MaterialModel>, name: Seq<char>)
    ensures
        material_index(ms, name) matches Some(k) ==> k < ms.len(),
    decreases ms.len(),
{
    if ms.len() > 0 {
        lemma_material_index_below(ms.drop_last(), name);
    }
}

proof fn lemma_close_step_keeps(st: ParserModel)
    requires
        parse_invariant(st),
    ensures
        parse_invariant(close_step(st)),
{
    let c = close_step(st);
    assert forall|k: int| 0 <= k < c.project.steps.len() implies dofs_below_3((#[trigger] c.project.steps[k]).loads)
        && dofs_below_3(c.project.steps[k].bcs) by {
        if k < st.project.steps.len() {
            assert(c.project.steps[k] == st.project.steps[k]);
        }
    }
}

proof fn lemma_card_line_keeps(card: Card, st: ParserModel, line: Seq<char>)
    requires
        parse_invariant(st),
    ensures
        card_line(card, st, line) matches Ok(s) ==> parse_invariant(s),
{
    let p = positional_arguments(line);
    match card {
        Card::Boundary(a) => {
            if p.len() >= 2 && parse_usize(p[1]) is Ok {
                let first = parse_usize(p[1])->Ok_0;
                let last = if p.len() > 2 && p[2].len() > 0 { parse_usize(p[2]) } else { Ok(first) };
                if last is Ok {
                    let last = last->Ok_0;
                    let nodes = resolve_target(st.project.mesh.node_sets, p[0]);
                    let value = if p.len() > 3 { p[3] } else { "0"@ };
                    lemma_entries_dofs(nodes, first, last, value, amplitude_named(st, a), origin_step(st));
                    lemma_entries_origins(nodes, dof_span(first, last), value, amplitude_named(st, a), origin_step(st));
                    let e = nodal_entries(nodes, dof_span(first, last), value, amplitude_named(st, a), origin_step(st));
                    lemma_dofs_concat(st.step_bcs, e);
                    lemma_dofs_concat(st.project.initial_bcs, e);
                    if st.current_step is None {
                        lemma_origins_concat(st.project.initial_bcs, e, 0);
                    }
                }
            }
        },
        Card::Cload(a) => {
            if p.len() >= 3 && parse_usize(p[1]) is Ok {
                let dof = parse_usize(p[1])->Ok_0;
                let nodes = resolve_target(st.project.mesh.node_sets, p[0]);
                lemma_entries_dofs(nodes, dof, dof, p[2], amplitude_named(st, a), origin_step(st));
                lemma_entries_origins(nodes, dof_span(dof, dof), p[2], amplitude_named(st, a), origin_step(st));
                let e = nodal_entries(nodes, dof_span(dof, dof), p[2], amplitude_named(st, a), origin_step(st));
                lemma_dofs_concat(st.step_loads, e);
                lemma_dofs_concat(st.project.initial_loads, e);
                if st.current_step is None {
                    lemma_origins_concat(st.project.initial_loads, e, 0);
                }
            }
        },
        _ => {},
    }
}

proof fn lemma_card_block_keeps(ls: Seq<Seq<char>>, lo: int, hi: int, card: Card, st: ParserModel)
    requires
        parse_invariant(st),
    ensures
        card_block(ls, lo, hi, card, st) matches Ok(s) ==> parse_invariant(s),
    decreases hi - lo,
{
    if hi > lo {
        lemma_card_block_keeps(ls, lo, hi - 1, card, st);
        if card_block(ls, lo, hi - 1, card, st) is Ok {
            lemma_card_line_keeps(card, card_block(ls, lo, hi - 1, card, st)->Ok_0, ls[hi - 1]);
        }
    }
}

proof fn lemma_data_line_keeps(st: ParserModel, line: Seq<char>)
    requires
        parse_invariant(st),
    ensures
        data_line(st, line) matches Ok(s) ==> parse_invariant(s),
{
}

proof fn lemma_keyword_card_keeps(ls: Seq<Seq<char>>, i: int, st: ParserModel)
    requires
        0 <= i < ls.len(),
        parse_invariant(st),
    ensures
        keyword_card(ls, i, st) matches Ok((s, _)) ==> parse_invariant(s),
{
    let line = ls[i];
    match keyword_named(replace_char(keyword_text(line), ' ', '_')) {
        None => {},
        Some(kw) => {
            let st1 = ParserModel { keyword: Some(kw), ..st };
            let end = block_end(ls, i + 1);
            match kw {
                Keyword::Nset => {
                    lemma_card_block_keeps(ls, i + 1, end, Card::Nset, ParserModel {
                        set_name: keyword_value(line, "NSET"@),
                        is_generate: keyword_arguments(line).contains_key("GENERATE"@),
                        ..st1
                    });
                },
                Keyword::Elset => {
                    lemma_card_block_keeps(ls, i + 1, end, Card::Elset, ParserModel {
                        set_name: keyword_value(line, "ELSET"@),
                        is_generate: keyword_arguments(line).contains_key("GENERATE"@),
                        ..st1
                    });
                },
                Keyword::SolidSection => {
                    match (keyword_value(line, "ELSET"@), keyword_value(line, "MATERIAL"@)) {
                        (Some(elset), Some(mat)) => {
                            lemma_material_index_below(st1.materials, mat);
                            if let Some(k) = material_index(st1.materials, mat) {
                                if st1.project.mesh.element_sets.contains_key(elset) {
                                    lemma_assign_all_below(
                                        st1.project.element_materials,
                                        st1.project.mesh.element_sets[elset],
                                        k as usize,
                                        st1.materials.len(),
                                    );
                                }
                            }
                        },
                        _ => {},
                    }
                },
                Keyword::Step => {
                    let st2 = if st1.step_counter == 0 {
                        ParserModel { step_loads: st1.project.initial_loads, step_bcs: st1.project.initial_bcs, ..st1 }
                    } else {
                        st1
                    };
                    lemma_close_step_keeps(ParserModel { step_counter: st2.step_counter + 1, ..st2 });
                },
                Keyword::EndStep => {
                    lemma_close_step_keeps(st1);
                },
                Keyword::Boundary => {
                    lemma_card_block_keeps(ls, i + 1, end, Card::Boundary(keyword_value(line, "AMPLITUDE"@)), boundary_reset(line, st1));
                },
                Keyword::Cload => {
                    lemma_card_block_keeps(ls, i + 1, end, Card::Cload(keyword_value(line, "AMPLITUDE"@)), cload_reset(line, st1));
                },
                Keyword::NodeFile => {
                    lemma_card_block_keeps(ls, i + 1, end, Card::NodeFile, st1);
                },
                Keyword::ElFile => {
                    lemma_card_block_keeps(ls, i + 1, end, Card::ElFile, st1);
                },
                _ => {},
            }
        },
    }
}

proof fn lemma_run_keeps(ls: Seq<Seq<char>>, i: int, st: ParserModel)
    requires
        parse_invariant(st),
    ensures
        run(ls, i, st) matches Ok(s) ==> parse_invariant(s),
    decreases ls.len() - i,
{
    if 0 <= i < ls.len() {
        let st1 = ParserModel { line_nr: (i + 1) as nat, ..st };
        if starts_with(ls[i], "*"@) {
            lemma_keyword_card_advances(ls, i, st1);
            lemma_keyword_card_keeps(ls, i, st1);
            if let Ok((st2, j)) = keyword_card(ls, i, st1) {
                lemma_run_keeps(ls, j, st2);
            }
        } else {
            let t = trim(ls[i]);
            if t.len() == 0 || st1.keyword is None {
                lemma_run_keeps(ls, i + 1, st1);
            } else {
                lemma_data_line_keeps(st1, t);
                if let Ok(st2) = data_step(st1, t) {
                    lemma_run_keeps(ls, i + 1, st2);
                }
            }
        }
    }
}

/// The project made of a deck the parser accepts: for a parser fresh from
/// `Parser::new`, it is what `Parser::parse` returns (`Ok`).
pub open spec fn parsed_project(text: Seq<char>) -> ProjectModel {
    finished(deck_outcome(text, start_state(empty_project()))->Ok_0)
}

proof fn lemma_parsed_invariant(text: Seq<char>)
    requires
        deck_outcome(text, start_state(empty_project())) is Ok,
    ensures
        parse_invariant(close_step(deck_outcome(text, start_state(empty_project()))->Ok_0)),
{
    let st0 = start_state(empty_project());
    assert(parse_invariant(st0));
    lemma_run_keeps(lines(text), 0, st0);
    lemma_close_step_keeps(deck_outcome(text, st0)->Ok_0);
}

/// Every load and every boundary condition of a parsed deck, whether defined
/// before the first step or in a step, acts on degree of freedom 0, 1 or 2.
pub proof fn law_parsed_dofs_below_3(text: Seq<char>)
    requires
        deck_outcome(text, start_state(empty_project())) is Ok,
    ensures
        dofs_below_3(parsed_project(text).initial_loads),
        dofs_below_3(parsed_project(text).initial_bcs),
        forall|k: int| 0 <= k < parsed_project(text).steps.len() ==> dofs_below_3(
            (#[trigger] parsed_project(text).steps[k]).loads,
        ) && dofs_below_3(parsed_project(text).steps[k].bcs),
{
    lemma_parsed_invariant(text);
}

/// The loads and boundary conditions of a parsed deck that were defined
/// before the first step belong to step 0.
pub proof fn law_parsed_initial_origins(text: Seq<char>)
    requires
        deck_outcome(text, start_state(empty_project())) is Ok,
    ensures
        origins_are(parsed_project(text).initial_loads, 0),
        origins_are(parsed_project(text).initial_bcs, 0),
{
    lemma_parsed_invariant(text);
}

/// The material of every element of a parsed deck is an index into the
/// project's materials.
pub proof fn law_parsed_material_indices(text: Seq<char>)
    requires
        deck_outcome(text, start_state(empty_project())) is Ok,
    ensures
        values_below(parsed_project(text).element_materials, parsed_project(text).materials.len()),
{
    lemma_parsed_invariant(text);
}

/// The first `*STEP` card starts its step from the loads and boundary
/// conditions defined before it, and counts one step.
pub proof fn law_first_step_inherits(ls: Seq<Seq<char>>, i: int, st: ParserModel)
    requires
        0 <= i < ls.len(),
        st.step_counter == 0,
        keyword_named(replace_char(keyword_text(ls[i]), ' ', '_')) == Some(Keyword::Step),
    ensures
        keyword_card(ls, i, st) matches Ok((s, _)) ==> s.step_loads == st.project.initial_loads
            && s.step_bcs == st.project.initial_bcs && s.step_counter == 1,
{
}

// ------------------------------------------------------------------
// When the parser panics
// ------------------------------------------------------------------

/// A line whose third comma-separated piece reads as the number 0 (an
/// increment of 0 on a `GENERATE` line).
pub open spec fn zero_increment_line(line: Seq<char>) -> bool {
    let p = positional_arguments(line);
    p.len() > 2 && parse_usize(p[2]) == Ok::<usize, crate::text::IntErrorKind>(0)
}

proof fn lemma_card_block_panic(ls: Seq<Seq<char>>, lo: int, hi: int, card: Card, st: ParserModel)
    requires
        0 <= lo,
        hi <= ls.len(),
    ensures
        card_block(ls, lo, hi, card, st) == Err::<ParserModel, Stop>(Stop::Panic) ==> exists|j: int|
            lo <= j < hi && zero_increment_line(#[trigger] ls[j]),
    decreases hi - lo,
{
    if hi > lo {
        lemma_card_block_panic(ls, lo, hi - 1, card, st);
        if card_block(ls, lo, hi - 1, card, st) is Ok {
            let s1 = card_block(ls, lo, hi - 1, card, st)->Ok_0;
            if card_line(card, s1, ls[hi - 1]) == Err::<ParserModel, Stop>(Stop::Panic) {
                assert(zero_increment_line(ls[hi - 1]));
            }
        }
    }
}

proof fn lemma_keyword_card_panic(ls: Seq<Seq<char>>, i: int, st: ParserModel)
    requires
        0 <= i < ls.len(),
    ensures
        keyword_card(ls, i, st) == Err::<(ParserModel, int), Stop>(Stop::Panic) ==> exists|j: int|
            i < j < ls.len() && zero_increment_line(#[trigger] ls[j]),
{
    lemma_block_end(ls, i + 1);
    let line = ls[i];
    let st1 = ParserModel { keyword: keyword_named(replace_char(keyword_text(line), ' ', '_')), ..st };
    let end = block_end(ls, i + 1);
    lemma_card_block_panic(ls, i + 1, end, Card::Nset, ParserModel {
        set_name: keyword_value(line, "NSET"@),
        is_generate: keyword_arguments(line).contains_key("GENERATE"@),
        ..st1
    });
    lemma_card_block_panic(ls, i + 1, end, Card::Elset, ParserModel {
        set_name: keyword_value(line, "ELSET"@),
        is_generate: keyword_arguments(line).contains_key("GENERATE"@),
        ..st1
    });
    lemma_card_block_panic(ls, i + 1, end, Card::Boundary(keyword_value(line, "AMPLITUDE"@)), boundary_reset(line, st1));
    lemma_card_block_panic(ls, i + 1, end, Card::Cload(keyword_value(line, "AMPLITUDE"@)), cload_reset(line, st1));
    lemma_card_block_panic(ls, i + 1, end, Card::NodeFile, st1);
    lemma_card_block_panic(ls, i + 1, end, Card::ElFile, st1);
}

/// The table holds no row whose temperature reads as NaN.
pub open spec fn table_nan_free(t: Option<Seq<(Seq<char>, Seq<char>)>>) -> bool {
    t matches Some(r) ==> forall|k: int| 0 <= k < r.len() ==> !is_nan_literal(#[trigger] r[k].0)
}

/// No table of a material holds a row whose temperature reads as NaN.
pub open spec fn material_nan_free(m: MaterialModel) -> bool {
    &&& table_nan_free(m.density)
    &&& table_nan_free(m.youngs_modulus)
    &&& table_nan_free(m.poisson_ratio)
    &&& table_nan_free(m.thermal_expansion)
}

/// No material table of the state holds a row whose temperature reads as NaN.
pub open spec fn tables_nan_free(st: ParserModel) -> bool {
    forall|i: int| 0 <= i < st.materials.len() ==> material_nan_free(#[trigger] st.materials[i])
}

/// A comma-separated piece of the (trimmed) line reads as NaN.
pub open spec fn nan_line(line: Seq<char>) -> bool {
    let p = positional_arguments(trim(line));
    exists|k: int| 0 <= k < p.len() && is_nan_literal(#[trigger] p[k])
}

proof fn lemma_card_block_materials(ls: Seq<Seq<char>>, lo: int, hi: int, card: Card, st: ParserModel)
    requires
        0 <= lo,
        hi <= ls.len(),
    ensures
        card_block(ls, lo, hi, card, st) matches Ok(s) ==> s.materials == st.materials,
    decreases hi - lo,
{
    if hi > lo {
        lemma_card_block_materials(ls, lo, hi - 1, card, st);
    }
}

proof fn lemma_keyword_card_tables(ls: Seq<Seq<char>>, i: int, st: ParserModel)
    requires
        0 <= i < ls.len(),
        tables_nan_free(st),
    ensures
        keyword_card(ls, i, st) matches Ok((s, j)) ==> tables_nan_free(s),
{
    lemma_block_end(ls, i + 1);
    let line = ls[i];
    let st1 = ParserModel { keyword: keyword_named(replace_char(keyword_text(line), ' ', '_')), ..st };
    let end = block_end(ls, i + 1);
    lemma_card_block_materials(ls, i + 1, end, Card::Nset, ParserModel {
        set_name: keyword_value(line, "NSET"@),
        is_generate: keyword_arguments(line).contains_key("GENERATE"@),
        ..st1
    });
    lemma_card_block_materials(ls, i + 1, end, Card::Elset, ParserModel {
        set_name: keyword_value(line, "ELSET"@),
        is_generate: keyword_arguments(line).contains_key("GENERATE"@),
        ..st1
    });
    lemma_card_block_materials(ls, i + 1, end, Card::Boundary(keyword_value(line, "AMPLITUDE"@)), boundary_reset(line, st1));
    lemma_card_block_materials(ls, i + 1, end, Card::Cload(keyword_value(line, "AMPLITUDE"@)), cload_reset(line, st1));
    lemma_card_block_materials(ls, i + 1, end, Card::NodeFile, st1);
    lemma_card_block_materials(ls, i + 1, end, Card::ElFile, st1);
    if keyword_card(ls, i, st) is Ok {
        let s = keyword_card(ls, i, st)->Ok_0.0;
        assert forall|k: int| 0 <= k < s.materials.len() implies material_nan_free(#[trigger] s.materials[k]) by {
            if k < st.materials.len() {
                assert(material_nan_free(st.materials[k]));
            }
        }
    }
}

proof fn lemma_data_step_tables(st: ParserModel, t: Seq<char>)
    requires
        tables_nan_free(st),
        !(exists|k: int|
            0 <= k < positional_arguments(t).len() && is_nan_literal(#[trigger] positional_arguments(t)[k])),
    ensures
        data_step(st, t) != Err::<ParserModel, Stop>(Stop::Panic),
        data_step(st, t) matches Ok(s) ==> tables_nan_free(s),
{
    reveal_strlit("nan");
    reveal_strlit("0");
    let p = positional_arguments(t);
    assert(!is_nan_literal("0"@));
    if p.len() >= 1 {
        assert(!is_nan_literal(p[0]));
    }
    if p.len() >= 2 {
        assert(!is_nan_literal(p[1]));
    }
    if p.len() >= 3 {
        assert(!is_nan_literal(p[2]));
    }
    if st.materials.len() > 0 {
        assert(material_nan_free(st.materials[st.materials.len() - 1]));
    }
    if data_step(st, t) is Ok {
        let s = data_step(st, t)->Ok_0;
        assert forall|k: int| 0 <= k < s.materials.len() implies material_nan_free(#[trigger] s.materials[k]) by {
            assert(material_nan_free(st.materials[k]));
            let m = st.materials[k];
            let n = s.materials[k];
            assert forall|q: int| 0 <= q < n.density->0.len() && n.density is Some implies !is_nan_literal(#[trigger] n.density->0[q].0) by {
                if m.density is Some && q < m.density->0.len() {
                    assert(n.density->0[q] == m.density->0[q]);
                }
            }
            assert forall|q: int| 0 <= q < n.youngs_modulus->0.len() && n.youngs_modulus is Some implies !is_nan_literal(#[trigger] n.youngs_modulus->0[q].0) by {
                if m.youngs_modulus is Some && q < m.youngs_modulus->0.len() {
                    assert(n.youngs_modulus->0[q] == m.youngs_modulus->0[q]);
                }
            }
            assert forall|q: int| 0 <= q < n.poisson_ratio->0.len() && n.poisson_ratio is Some implies !is_nan_literal(#[trigger] n.poisson_ratio->0[q].0) by {
                if m.poisson_ratio is Some && q < m.poisson_ratio->0.len() {
                    assert(n.poisson_ratio->0[q] == m.poisson_ratio->0[q]);
                }
            }
            assert forall|q: int| 0 <= q < n.thermal_expansion->0.len() && n.thermal_expansion is Some implies !is_nan_literal(#[trigger] n.thermal_expansion->0[q].0) by {
                if m.thermal_expansion is Some && q < m.thermal_expansion->0.len() {
                    assert(n.thermal_expansion->0[q] == m.thermal_expansion->0[q]);
                }
            }
        }
    }
}

proof fn lemma_run_panic(ls: Seq<Seq<char>>, i: int, st: ParserModel)
    requires
        0 <= i,
        tables_nan_free(st),
    ensures
        run(ls, i, st) == Err::<ParserModel, Stop>(Stop::Panic) ==> exists|j: int|
            i <= j < ls.len() && (zero_increment_line(#[trigger] ls[j]) || nan_line(ls[j])),
    decreases ls.len() - i,
{
    if i < ls.len() {
        let st1 = ParserModel { line_nr: (i + 1) as nat, ..st };
        assert(tables_nan_free(st1));
        if starts_with(ls[i], "*"@) {
            lemma_keyword_card_advances(ls, i, st1);
            lemma_keyword_card_panic(ls, i, st1);
            lemma_keyword_card_tables(ls, i, st1);
            if let Ok((st2, j)) = keyword_card(ls, i, st1) {
                lemma_run_panic(ls, j, st2);
            }
        } else {
            let t = trim(ls[i]);
            if t.len() == 0 || st1.keyword is None {
                lemma_run_panic(ls, i + 1, st1);
            } else if nan_line(ls[i]) {
                assert(nan_line(ls[i]));
            } else {
                lemma_data_step_tables(st1, t);
                if let Ok(st2) = data_step(st1, t) {
                    lemma_run_panic(ls, i + 1, st2);
                }
            }
        }
    }
}

/// When the parser panics: from a state whose material tables hold no NaN
/// temperature (as the start state, which has no materials), it panics only
/// on a deck with a line whose third comma-separated piece reads as the
/// number 0 (a `GENERATE` line with an increment of 0) or with a piece that
/// reads as NaN (a NaN temperature makes sorting a material table panic).
/// On any other deck `Parser::parse` can be called.
pub proof fn law_when_the_parser_panics(text: Seq<char>, st: ParserModel)
    requires
        tables_nan_free(st),
    ensures
        deck_panics(text, st) ==> exists|j: int|
            0 <= j < lines(text).len() && (zero_increment_line(#[trigger] lines(text)[j]) || nan_line(
                lines(text)[j],
            )),
{
    lemma_run_panic(lines(text), 0, st);
}

/// The keywords that the documentation lists as supported (with the step
/// cards `*STEP` and `*END STEP` that its decks use), as a keyword line names
/// them.
pub open spec fn documented_keywords() -> Seq<Seq<char>> {
    seq![
        "STEP"@,
        "STATIC"@,
        "END STEP"@,
        "MATERIAL"@,
        "ELASTIC"@,
        "DENSITY"@,
        "EXPANSION"@,
        "DEPVAR"@,
        "BOUNDARY"@,
        "CLOAD"@,
        "INITIAL CONDITIONS"@,
        "AMPLITUDE"@,
        "NODE"@,
        "ELEMENT"@,
        "NSET"@,
        "ELSET"@,
        "SOLID SECTION"@,
        "NODE FILE"@,
        "EL FILE"@,
        "NODE PRINT"@
    ]
}

/// Every keyword that the documentation lists as supported is recognised: a
/// keyword line that names one of them never takes the branch of
/// `keyword_card` that stops with `UnsupportedKeyword`.
pub proof fn law_documented_keywords_recognised(line: Seq<char>)
    requires
        documented_keywords().contains(keyword_text(line)),
    ensures
        keyword_named(replace_char(keyword_text(line), ' ', '_')) is Some,
{
    reveal_strlit("STEP");
    reveal_strlit("STATIC");
    reveal_strlit("END STEP");
    reveal_strlit("MATERIAL");
    reveal_strlit("ELASTIC");
    reveal_strlit("DENSITY");
    reveal_strlit("EXPANSION");
    reveal_strlit("DEPVAR");
    reveal_strlit("BOUNDARY");
    reveal_strlit("CLOAD");
    reveal_strlit("INITIAL CONDITIONS");
    reveal_strlit("AMPLITUDE");
    reveal_strlit("NODE");
    reveal_strlit("ELEMENT");
    reveal_strlit("NSET");
    reveal_strlit("ELSET");
    reveal_strlit("SOLID SECTION");
    reveal_strlit("NODE FILE");
    reveal_strlit("EL FILE");
    reveal_strlit("NODE PRINT");
    reveal_strlit("END_STEP");
    reveal_strlit("INITIAL_CONDITIONS");
    reveal_strlit("SOLID_SECTION");
    reveal_strlit("NODE_FILE");
    reveal_strlit("EL_FILE");
    reveal_strlit("NODE_PRINT");
    let name = keyword_text(line);
    let j = choose|j: int| 0 <= j < documented_keywords().len() && documented_keywords()[j] == name;
    if j == 0 {
        assert(replace_char(name, ' ', '_') =~= "STEP"@);
    }
    if j == 1 {
        assert(replace_char(name, ' ', '_') =~= "STATIC"@);
    }
    if j == 2 {
        assert(replace_char(name, ' ', '_') =~= "END_STEP"@);
    }
    if j == 3 {
        assert(replace_char(name, ' ', '_') =~= "MATERIAL"@);
    }
    if j == 4 {
        assert(replace_char(name, ' ', '_') =~= "ELASTIC"@);
    }
    if j == 5 {
        assert(replace_char(name, ' ', '_') =~= "DENSITY"@);
    }
    if j == 6 {
        assert(replace_char(name, ' ', '_') =~= "EXPANSION"@);
    }
    if j == 7 {
        assert(replace_char(name, ' ', '_') =~= "DEPVAR"@);
    }
    if j == 8 {
        assert(replace_char(name, ' ', '_') =~= "BOUNDARY"@);
    }
    if j == 9 {
        assert(replace_char(name, ' ', '_') =~= "CLOAD"@);
    }
    if j == 10 {
        assert(replace_char(name, ' ', '_') =~= "INITIAL_CONDITIONS"@);
    }
    if j == 11 {
        assert(replace_char(name, ' ', '_') =~= "AMPLITUDE"@);
    }
    if j == 12 {
        assert(replace_char(name, ' ', '_') =~= "NODE"@);
    }
    if j == 13 {
        assert(replace_char(name, ' ', '_') =~= "ELEMENT"@);
    }
    if j == 14 {
        assert(replace_char(name, ' ', '_') =~= "NSET"@);
    }
    if j == 15 {
        assert(replace_char(name, ' ', '_') =~= "ELSET"@);
    }
    if j == 16 {
        assert(replace_char(name, ' ', '_') =~= "SOLID_SECTION"@);
    }
    if j == 17 {
        assert(replace_char(name, ' ', '_') =~= "NODE_FILE"@);
    }
    if j == 18 {
        assert(replace_char(name, ' ', '_') =~= "EL_FILE"@);
    }
    if j == 19 {
        assert(replace_char(name, ' ', '_') =~= "NODE_PRINT"@);
    }
}

/// A keyword line whose keyword the parser does not know.
pub open spec fn unknown_keyword_line(line: Seq<char>) -> bool {
    starts_with(line, "*"@) && keyword_named(replace_char(keyword_text(line), ' ', '_')) is None
}

/// The parser stopped on an unsupported keyword.
pub open spec fn stops_unsupported(e: Stop) -> bool {
    e matches Stop::Error(ErrorModel::UnsupportedKeyword { .. })
}

proof fn lemma_card_block_supported(ls: Seq<Seq<char>>, lo: int, hi: int, card: Card, st: ParserModel)
    requires
        0 <= lo,
        hi <= ls.len(),
    ensures
        card_block(ls, lo, hi, card, st) matches Err(e) ==> !stops_unsupported(e),
    decreases hi - lo,
{
    if hi > lo {
        lemma_card_block_supported(ls, lo, hi - 1, card, st);
    }
}

proof fn lemma_amplitude_rows_supported(ls: Seq<Seq<char>>, lo: int, hi: int, line: nat)
    requires
        0 <= lo,
        hi <= ls.len(),
    ensures
        amplitude_rows(ls, lo, hi, line) matches Err(e) ==> !(e is UnsupportedKeyword),
    decreases hi - lo,
{
    if hi > lo {
        lemma_amplitude_rows_supported(ls, lo, hi - 1, line);
    }
}

proof fn lemma_keyword_card_supported(ls: Seq<Seq<char>>, i: int, st: ParserModel)
    requires
        0 <= i < ls.len(),
    ensures
        keyword_card(ls, i, st) matches Err(e) && stops_unsupported(e) ==> keyword_named(
            replace_char(keyword_text(ls[i]), ' ', '_'),
        ) is None,
{
    lemma_block_end(ls, i + 1);
    let line = ls[i];
    let st1 = ParserModel { keyword: keyword_named(replace_char(keyword_text(line), ' ', '_')), ..st };
    let end = block_end(ls, i + 1);
    lemma_card_block_supported(ls, i + 1, end, Card::Nset, ParserModel {
        set_name: keyword_value(line, "NSET"@),
        is_generate: keyword_arguments(line).contains_key("GENERATE"@),
        ..st1
    });
    lemma_card_block_supported(ls, i + 1, end, Card::Elset, ParserModel {
        set_name: keyword_value(line, "ELSET"@),
        is_generate: keyword_arguments(line).contains_key("GENERATE"@),
        ..st1
    });
    lemma_card_block_supported(ls, i + 1, end, Card::Boundary(keyword_value(line, "AMPLITUDE"@)), boundary_reset(line, st1));
    lemma_card_block_supported(ls, i + 1, end, Card::Cload(keyword_value(line, "AMPLITUDE"@)), cload_reset(line, st1));
    lemma_card_block_supported(ls, i + 1, end, Card::NodeFile, st1);
    lemma_card_block_supported(ls, i + 1, end, Card::ElFile, st1);
    lemma_amplitude_rows_supported(ls, i + 1, end, st.line_nr);
}

proof fn lemma_run_supported(ls: Seq<Seq<char>>, i: int, st: ParserModel)
    requires
        0 <= i,
    ensures
        run(ls, i, st) matches Err(e) && stops_unsupported(e) ==> exists|j: int|
            i <= j < ls.len() && unknown_keyword_line(#[trigger] ls[j]),
    decreases ls.len() - i,
{
    if i < ls.len() {
        let st1 = ParserModel { line_nr: (i + 1) as nat, ..st };
        if starts_with(ls[i], "*"@) {
            lemma_keyword_card_advances(ls, i, st1);
            lemma_keyword_card_supported(ls, i, st1);
            if let Ok((st2, j)) = keyword_card(ls, i, st1) {
                lemma_run_supported(ls, j, st2);
            }
        } else {
            let t = trim(ls[i]);
            if t.len() == 0 || st1.keyword is None {
                lemma_run_supported(ls, i + 1, st1);
            } else if let Ok(st2) = data_step(st1, t) {
                lemma_run_supported(ls, i + 1, st2);
            }
        }
    }
}

/// A deck whose keyword lines all name keywords that the documentation lists
/// as supported is never refused with `UnsupportedKeyword`, whatever state
/// the parser starts from.
pub proof fn law_documented_decks_supported(text: Seq<char>, st: ParserModel)
    requires
        forall|j: int|
            0 <= j < lines(text).len() && starts_with(#[trigger] lines(text)[j], "*"@)
                ==> documented_keywords().contains(keyword_text(lines(text)[j])),
    ensures
        !(deck_outcome(text, st) matches Err(e) && stops_unsupported(e)),
{
    let ls = lines(text);
    lemma_run_supported(ls, 0, st);
    assert forall|j: int| 0 <= j < ls.len() implies !unknown_keyword_line(#[trigger] ls[j]) by {
        if starts_with(ls[j], "*"@) {
            law_documented_keywords_recognised(ls[j]);
        }
    }
}

} // verus!
