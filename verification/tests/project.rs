use ferrix::cli::{Args, DEFAULT_THREADS};
use ferrix::solver::error::FerrixError;
use ferrix::solver::io::OutputFormat;
use ferrix::solver::mesh_lib::elements::element::{Element, ElementType};
use ferrix::solver::mesh_lib::node::Node;
use ferrix::solver::ids::{ElementId, NodeId};
use ferrix::solver::project::Project;

#[test]
fn deck_path_appends_inp() {
    assert_eq!(Project::deck_path("job"), "job.inp");
    assert_eq!(Project::deck_path(""), ".inp");
    assert_eq!(Project::deck_path("runs/job.dat"), "runs/job.dat.inp");
    assert_eq!(Project::deck_path(".inp"), ".inp.inp");
    assert_eq!(Project::deck_path("a/b/job"), "a/b/job.inp");
    assert_eq!(Project::deck_path("/home/u/job.inp"), "/home/u/job.inp");
    assert_eq!(Project::deck_path("/home/u/job.Inp"), "/home/u/job.Inp");
    assert_eq!(Project::deck_path("dir/job.INP"), "dir/job.INP");
    assert_eq!(Project::deck_path("job.inpx"), "job.inpx.inp");
    assert_eq!(Project::deck_path_with("a.b", Some("b".to_string())), "a.b.inp");
    assert_eq!(Project::deck_path_with("a.Inp", Some("Inp".to_string())), "a.Inp");
    assert_eq!(Project::deck_path_with("a", None), "a.inp");
}

#[test]
fn project_from_input_keeps_path_and_text() {
    let p = Project::from_input("dir/job.inp".to_string(), "*node\n1, 0, 0, 0\n").unwrap().unwrap();
    assert_eq!(p.filepath, "dir/job.inp");
    assert_eq!(p.input.0, "*NODE\n1, 0, 0, 0\n");
    assert_eq!(p.mesh.nodes.len(), 1);
    assert_eq!(p.jobname().unwrap(), "job");
    assert_eq!(p.job_dir().unwrap(), "dir");
    assert_eq!(p.default_initial_temperature, "0");
    assert!(Project::from_input("x".to_string(), "*ELSET, ELSET=A, GENERATE\n1, 2, 0\n").is_none());
    assert!(matches!(Project::from_input("x".to_string(), "*BOGUS\n"), Some(Err(FerrixError::UnsupportedKeyword { .. }))));
}

#[test]
fn jobname_and_job_dir_errors() {
    match Project::jobname_from(None) {
        Err(FerrixError::InvalidModelState(m)) => assert_eq!(m, "Could not infer jobname from path"),
        _ => panic!("expected an error"),
    }
    assert_eq!(Project::jobname_from(Some("j".to_string())).unwrap(), "j");
    match Project::job_dir_from(None) {
        Err(FerrixError::InvalidModelState(m)) => assert_eq!(m, "Could not infer job directory"),
        _ => panic!("expected an error"),
    }
    let p = Project::new();
    assert!(p.jobname().is_err());
    assert!(p.job_dir().is_err());
}

#[test]
fn jobname_and_job_dir_of_plain_paths() {
    let mut p = Project::new();
    p.filepath = "beam.inp".to_string();
    assert_eq!(p.jobname().unwrap(), "beam");
    assert_eq!(p.job_dir().unwrap(), "");
    p.filepath = "runs/a.b.inp".to_string();
    assert_eq!(p.jobname().unwrap(), "a.b");
    assert_eq!(p.job_dir().unwrap(), "runs");
    p.filepath = "jobs/.hidden".to_string();
    assert_eq!(p.jobname().unwrap(), ".hidden");
    p.filepath = "plain".to_string();
    assert_eq!(p.jobname().unwrap(), "plain");
    p.filepath = "/".to_string();
    assert!(p.job_dir().is_err());
    p.filepath = "a/b/c.inp".to_string();
    assert_eq!(p.jobname().unwrap(), "c");
    assert_eq!(p.job_dir().unwrap(), "a/b");
    p.filepath = "/home/u/job.inp".to_string();
    assert_eq!(p.jobname().unwrap(), "job");
    assert_eq!(p.job_dir().unwrap(), "/home/u");
    p.filepath = "/job.inp".to_string();
    assert_eq!(p.job_dir().unwrap(), "/");
}

#[test]
fn args_hold_the_options() {
    let a = Args {
        jobname: "job".to_string(),
        num_threads: DEFAULT_THREADS,
        output_format: OutputFormat::Vtk,
        preprocessed_output: None,
    };
    assert_eq!(a.num_threads, 4);
    assert_eq!(a.output_format.name(), "VTK");
}

#[test]
fn node_and_element_lines() {
    let n = Node::parse_line("3, 1.0, -2e3, inf").unwrap();
    assert_eq!(n.id, NodeId(3));
    assert_eq!(n.y, "-2e3");
    assert!(Node::parse_line("3, 1.0, 2.0").is_none());
    assert!(Node::parse_line("x, 1.0, 2.0, 3").is_none());
    assert!(Node::parse_line("3, 1.0, 2.0, 1e").is_none());
    let e = Element::parse_line("C3D6", "2, 1, 2, 3, 4, 5, 6").unwrap();
    assert_eq!(e.element_type(), ElementType::C3D6);
    assert_eq!(e.get_id(), ElementId(2));
    match Element::parse_line("C3D8", "2, 1") {
        Err(FerrixError::ParseError { message, .. }) => assert_eq!(message, "Unknown element definition: C3D8"),
        _ => panic!("expected an error"),
    }
    match Element::parse_line("C3D4", "2, 1, x") {
        Err(FerrixError::ParseError { message, .. }) => assert_eq!(message, "Integer conversion failed"),
        _ => panic!("expected an error"),
    }
    assert_eq!(Element::parse_type_str_from_line("*ELEMENT, TYPE=C3D10").unwrap(), "C3D10");
    assert_eq!(Element::parse_type_str_from_line("*ELEMENT, ELSET=E1, TYPE=C3D4").unwrap(), "C3D4");
    assert_eq!(Element::parse_type_str_from_line("*ELEMENT, TYPE=C3D6, ELSET=E2").unwrap(), "C3D6");
    match Element::parse_type_str_from_line("*ELEMENT, ELSET=E1") {
        Err(FerrixError::ParseError { message, .. }) => assert_eq!(message, "Invalid element definition"),
        _ => panic!("expected an error"),
    }
}
