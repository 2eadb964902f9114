//! The model that a deck describes.
use crate::name_map::NameMap;
use crate::solver::amplitude::{Amplitude, AmplitudeModel};
use crate::solver::inp::InpFile;
use crate::solver::material::{material_views, BaseMaterial, MaterialModel};
use crate::solver::mesh_lib::mesh::{Mesh, MeshModel};
use crate::solver::step::boundary_conds::{
    bc_views, load_views, BoundaryCondition, Load, NodalModel,
};
use crate::solver::step::static_step::StepModel;
use crate::solver::step::steps::{step_views, Step};
use crate::solver::deck::{deck_outcome, deck_panics, parsed_project, start_state, Stop};
use crate::solver::error::FerrixError;
use crate::solver::mesh_lib::mesh::numbering_of;
use crate::solver::parser::{option_view, preprocessed, string_views, Parser};
use crate::text::{chars_of, contains, eq_ignore_case, eq_ignore_case_exec, split};
use std::collections::HashMap;
use vstd::prelude::*;

verus! {

broadcast use vstd::std_specs::hash::group_hash_axioms;

/// The central data structure for a single FEA problem: mesh, materials,
/// steps, loads, boundary conditions, output requests and amplitudes.
#[derive(Debug)]
pub struct Project {
    /// The filepath to the .inp file, which serves as the job's identifier.
    pub filepath: String,
    /// The finite element mesh, containing all nodes, elements, and sets.
    pub mesh: Box<Mesh>,
    /// The analysis steps, in the order they are executed.
    pub steps: Vec<Step>,
    /// The preprocessed content of the input file.
    pub input: Box<InpFile>,
    /// All materials, in the order they were defined.
    pub materials: Vec<BaseMaterial>,
    /// Element id -> index of its material in `materials`.
    pub element_materials: HashMap<usize, usize>,
    /// Concentrated loads (*CLOAD) defined before the first step.
    pub initial_loads: Vec<Load>,
    /// Boundary conditions (*BOUNDARY) defined before the first step.
    pub initial_bcs: Vec<BoundaryCondition>,
    /// Nodal output variables requested by the user (e.g. `U`, `RF`).
    pub nodal_output: Vec<String>,
    /// Element output variables requested by the user (e.g. `S`, `E`).
    pub element_output: Vec<String>,
    /// Amplitude definitions by name.
    pub amplitudes: NameMap<Amplitude>,
    /// Node id -> initial temperature literal (*INITIAL CONDITIONS).
    pub initial_temperatures: HashMap<usize, String>,
    /// The temperature literal of nodes without an initial condition.
    pub default_initial_temperature: String,
}

/// A project as plain values.
pub struct ProjectModel {
    pub filepath: Seq<char>,
    pub mesh: MeshModel,
    pub steps: Seq<StepModel>,
    pub materials: Seq<MaterialModel>,
    pub element_materials: Map<usize, usize>,
    pub initial_loads: Seq<NodalModel>,
    pub initial_bcs: Seq<NodalModel>,
    pub nodal_output: Seq<Seq<char>>,
    pub element_output: Seq<Seq<char>>,
    pub amplitudes: Map<Seq<char>, AmplitudeModel>,
    pub initial_temperatures: Map<usize, Seq<char>>,
    pub default_initial_temperature: Seq<char>,
    pub input: Seq<char>,
}

impl View for Project {
    type V = ProjectModel;

    open spec fn view(&self) -> ProjectModel {
        ProjectModel {
            filepath: self.filepath@,
            mesh: self.mesh@,
            steps: step_views(self.steps@),
            materials: material_views(self.materials@),
            element_materials: self.element_materials@,
            initial_loads: load_views(self.initial_loads@),
            initial_bcs: bc_views(self.initial_bcs@),
            nodal_output: string_views(self.nodal_output@),
            element_output: string_views(self.element_output@),
            amplitudes: self.amplitudes.map().map_values(|a: Amplitude| a@),
            initial_temperatures: self.initial_temperatures@.map_values(|t: String| t@),
            default_initial_temperature: self.default_initial_temperature@,
            input: self.input.0@,
        }
    }
}

/// The project of an empty deck: nothing defined, the default initial
/// temperature `0`.
pub open spec fn empty_project() -> ProjectModel {
    ProjectModel {
        filepath: Seq::empty(),
        mesh: MeshModel {
            nodes: Map::empty(),
            elements: Map::empty(),
            node_sets: Map::empty(),
            element_sets: Map::empty(),
        },
        steps: Seq::empty(),
        materials: Seq::empty(),
        element_materials: Map::empty(),
        initial_loads: Seq::empty(),
        initial_bcs: Seq::empty(),
        nodal_output: Seq::empty(),
        element_output: Seq::empty(),
        amplitudes: Map::empty(),
        initial_temperatures: Map::empty(),
        default_initial_temperature: "0"@,
        input: Seq::empty(),
    }
}

impl Project {
    /// An empty project.
    pub fn new() -> (res: Self)
        ensures
            res@ == empty_project(),
            res.mesh.index_to_node_id@.len() == 0,
    {
        let res = Project {
            filepath: String::new(),
            mesh: Box::new(Mesh::new()),
            steps: Vec::new(),
            input: Box::new(InpFile::default()),
            materials: Vec::new(),
            element_materials: HashMap::new(),
            initial_loads: Vec::new(),
            initial_bcs: Vec::new(),
            nodal_output: Vec::new(),
            element_output: Vec::new(),
            amplitudes: NameMap::new(),
            initial_temperatures: HashMap::new(),
            default_initial_temperature: String::from_str("0"),
        };
        assert(res@.amplitudes =~= Map::<Seq<char>, AmplitudeModel>::empty());
        assert(res@.initial_temperatures =~= Map::<usize, Seq<char>>::empty());
        assert(res@.steps =~= Seq::<StepModel>::empty());
        assert(res@.materials =~= Seq::<MaterialModel>::empty());
        assert(res@.initial_loads =~= Seq::<NodalModel>::empty());
        assert(res@.initial_bcs =~= Seq::<NodalModel>::empty());
        assert(res@.nodal_output =~= Seq::<Seq<char>>::empty());
        assert(res@.element_output =~= Seq::<Seq<char>>::empty());
        assert(res@.filepath =~= Seq::<char>::empty());
        res
    }
}

/// `Path::extension` of a path given as text. How a path splits into
/// components depends on the platform; what is stated holds on every
/// platform, as the documentation gives it: an extension holds no `.`; an
/// empty path has none; and for a path of plain names joined by `/` (see
/// `path_components`) it is `extension_of` of the last name. Of other paths
/// nothing more is stated.
#[verifier::external_body]
fn path_extension(path: &str) -> (res: Option<String>)
    ensures
        res matches Some(e) ==> !contains(e@, '.'),
        path@.len() == 0 ==> res is None,
        path_components(path@) matches Some(c) ==> option_view(res) == extension_of(c.last()),
{
    match std::path::Path::new(path).extension() {
        Some(e) => Some(e.to_string_lossy().into_owned()),
        None => None,
    }
}

/// A name that is one ordinary path component on every platform: not empty,
/// not `.` or `..`, and free of `/`, `\` and `:` (the characters that make
/// separators, roots and prefixes on some platform).
pub open spec fn is_plain_name(s: Seq<char>) -> bool {
    &&& s.len() > 0
    &&& s != "."@
    &&& s != ".."@
    &&& !contains(s, '/')
    &&& !contains(s, '\\')
    &&& !contains(s, ':')
}

/// Whether the path `p` starts at the root `/`.
pub open spec fn is_rooted(p: Seq<char>) -> bool {
    p.len() > 0 && p[0] == '/'
}

/// The components of a path made of plain names joined by `/`, with or
/// without a leading `/` (such as `job.inp`, `runs/a/job.inp` or
/// `/home/u/job.inp`); `None` for any other path.
pub open spec fn path_components(p: Seq<char>) -> Option<Seq<Seq<char>>> {
    let rest = if is_rooted(p) { p.drop_first() } else { p };
    let comps = split(rest, '/');
    if forall|i: int| 0 <= i < comps.len() ==> is_plain_name(#[trigger] comps[i]) {
        Some(comps)
    } else {
        None
    }
}

/// The parent of a path that `path_components` splits: the text before its
/// last `/`, or `/` for a name at the root and `""` for a bare name.
pub open spec fn parent_of(p: Seq<char>, comps: Seq<Seq<char>>) -> Seq<char> {
    if comps.len() > 1 {
        p.take(p.len() - comps.last().len() - 1)
    } else if is_rooted(p) {
        "/"@
    } else {
        Seq::empty()
    }
}

/// The index of the last `.` in `s`, or -1.
pub open spec fn last_dot(s: Seq<char>) -> int
    decreases s.len(),
{
    if s.len() == 0 {
        -1
    } else if s.last() == '.' {
        s.len() - 1
    } else {
        last_dot(s.drop_last())
    }
}

/// The stem of a file name: the whole name where it has no `.`, or its only
/// `.` is its first character; else the part before its last `.`.
pub open spec fn stem_of(name: Seq<char>) -> Seq<char> {
    if last_dot(name) <= 0 {
        name
    } else {
        name.take(last_dot(name))
    }
}

/// The extension of a file name: none where it has no `.`, or its only `.`
/// is its first character; else the part after its last `.`.
pub open spec fn extension_of(name: Seq<char>) -> Option<Seq<char>> {
    if last_dot(name) <= 0 {
        None
    } else {
        Some(name.skip(last_dot(name) + 1))
    }
}

/// `Path::file_stem` of a path given as text. How a path splits into
/// components depends on the platform; what is stated holds on every
/// platform, as the documentation gives it: an empty path has no file name;
/// a stem is never empty; and for a path of plain names joined by `/` (see
/// `path_components`) the file name is the last name, whose stem follows the
/// documented rules of `stem_of`. Of other paths nothing is stated.
#[verifier::external_body]
fn path_file_stem(path: &str) -> (res: Option<String>)
    ensures
        path@.len() == 0 ==> res is None,
        res matches Some(s) ==> s@.len() > 0,
        path_components(path@) matches Some(c) ==> option_view(res) == Some(stem_of(c.last())),
{
    match std::path::Path::new(path).file_stem() {
        Some(s) => Some(s.to_string_lossy().into_owned()),
        None => None,
    }
}

/// `Path::parent` of a path given as text. How a path splits into components
/// depends on the platform; what is stated holds on every platform, as the
/// documentation gives it: the empty path and the root `/` have no parent,
/// and the parent of a path of plain names joined by `/` (see
/// `path_components`) is `parent_of` it: the path without its last name.
/// Of other paths nothing is stated.
#[verifier::external_body]
fn path_parent(path: &str) -> (res: Option<String>)
    ensures
        path@.len() == 0 || path@ == "/"@ ==> res is None,
        path_components(path@) matches Some(c) ==> option_view(res) == Some(parent_of(path@, c)),
{
    match std::path::Path::new(path).parent() {
        Some(p) => Some(p.to_string_lossy().into_owned()),
        None => None,
    }
}

/// The path of the deck of a job: the jobname as given if its extension is
/// `inp` (in any case), else the jobname with `.inp` appended.
pub open spec fn deck_path(jobname: Seq<char>, extension: Option<Seq<char>>) -> Seq<char> {
    match extension {
        Some(e) => if eq_ignore_case(e, "inp"@) {
            jobname
        } else {
            jobname + ".inp"@
        },
        None => jobname + ".inp"@,
    }
}

/// The project a deck gives, when it was read from `filepath`: the parsed
/// project with its path and preprocessed text.
pub open spec fn project_from(filepath: Seq<char>, content: Seq<char>) -> ProjectModel {
    ProjectModel { filepath, input: preprocessed(content), ..parsed_project(preprocessed(content)) }
}

impl Project {
    /// The path of the deck of a job, given the extension that the jobname
    /// has as a path.
    pub fn deck_path_with(jobname: &str, extension: Option<String>) -> (res: String)
        ensures
            res@ == deck_path(jobname@, option_view(extension)),
    {
        let is_inp = match &extension {
            Some(e) => eq_ignore_case_exec(&chars_of(e.as_str()), "inp"),
            None => false,
        };
        if is_inp {
            String::from_str(jobname)
        } else {
            let mut v = chars_of(jobname);
            v.push('.');
            v.push('i');
            v.push('n');
            v.push('p');
            proof {
                reveal_strlit(".inp");
                assert(v@ =~= jobname@ + ".inp"@);
            }
            crate::text::string_of(&v)
        }
    }

    /// The path of the deck of a job: `<jobname>.inp`, unless the jobname
    /// already has the extension `inp`.
    pub fn deck_path(jobname: &str) -> (res: String)
        ensures
            res@ == jobname@ || res@ == jobname@ + ".inp"@,
            jobname@.len() == 0 ==> res@ == ".inp"@,
            path_components(jobname@) matches Some(c) ==> res@ == deck_path(
                jobname@,
                extension_of(c.last()),
            ),
    {
        Project::deck_path_with(jobname, path_extension(jobname))
    }

    /// The project of a deck read from `filepath` with the text `content`;
    /// `None` where the deck makes the parser panic (a `GENERATE` line with an
    /// increment of 0, or a NaN temperature in a material table).
    ///
    /// # Errors
    /// Returns the parser's error if the deck cannot be parsed.
    pub fn from_input(filepath: String, content: &str) -> (res: Option<Result<Project, FerrixError>>)
        ensures
            match res {
                None => deck_panics(preprocessed(content@), start_state(empty_project())),
                Some(Ok(p)) => deck_outcome(preprocessed(content@), start_state(empty_project())) is Ok
                    && p@ == project_from(filepath@, content@)
                    && numbering_of(p@.mesh.nodes.dom(), p.mesh.index_to_node_id@, p.mesh.node_id_to_index@),
                Some(Err(e)) => deck_outcome(preprocessed(content@), start_state(empty_project()))
                    == Err::<crate::solver::deck::ParserModel, Stop>(Stop::Error(e@)),
            },
    {
        let input = InpFile::new(content);
        let parser = Parser::new(&input);
        match parser.parse_checked() {
            None => None,
            Some(Err(e)) => Some(Err(e)),
            Some(Ok(p)) => {
                let mut project = p;
                project.filepath = filepath;
                project.input = Box::new(input);
                Some(Ok(project))
            },
        }
    }

    /// The jobname, given the file stem of the project's path.
    pub fn jobname_from(stem: Option<String>) -> (res: Result<String, FerrixError>)
        ensures
            match res {
                Ok(s) => stem matches Some(t) && s@ == t@,
                Err(e) => stem is None && e@ == crate::solver::error::ErrorModel::InvalidModelState(
                    "Could not infer jobname from path"@,
                ),
            },
    {
        match stem {
            Some(s) => Ok(s),
            None => Err(FerrixError::InvalidModelState(String::from_str("Could not infer jobname from path"))),
        }
    }

    /// Gets the jobname (the file stem) from the project's path.
    ///
    /// # Errors
    /// Returns an error if the jobname cannot be inferred.
    pub fn jobname(&self) -> (res: Result<String, FerrixError>)
        ensures
            match res {
                Ok(s) => s@.len() > 0,
                Err(e) => e@ == crate::solver::error::ErrorModel::InvalidModelState(
                    "Could not infer jobname from path"@,
                ),
            },
            self.filepath@.len() == 0 ==> res is Err,
            path_components(self.filepath@) matches Some(c) ==> res matches Ok(s) && s@
                == stem_of(c.last()),
    {
        Project::jobname_from(path_file_stem(self.filepath.as_str()))
    }

    /// The output directory, given the parent of the project's path.
    pub fn job_dir_from(parent: Option<String>) -> (res: Result<String, FerrixError>)
        ensures
            match res {
                Ok(s) => parent matches Some(t) && s@ == t@,
                Err(e) => parent is None && e@ == crate::solver::error::ErrorModel::InvalidModelState(
                    "Could not infer job directory"@,
                ),
            },
    {
        match parent {
            Some(s) => Ok(s),
            None => Err(FerrixError::InvalidModelState(String::from_str("Could not infer job directory"))),
        }
    }

    /// Filepath to the output directory (the parent of the project's path).
    ///
    /// # Errors
    /// Returns an error if the job directory cannot be inferred.
    pub fn job_dir(&self) -> (res: Result<String, FerrixError>)
        ensures
            res matches Err(e) ==> e@ == crate::solver::error::ErrorModel::InvalidModelState(
                "Could not infer job directory"@,
            ),
            self.filepath@.len() == 0 || self.filepath@ == "/"@ ==> res is Err,
            path_components(self.filepath@) matches Some(c) ==> res matches Ok(s) && s@ == parent_of(
                self.filepath@,
                c,
            ),
    {
        Project::job_dir_from(path_parent(self.filepath.as_str()))
    }
}

} // verus!
