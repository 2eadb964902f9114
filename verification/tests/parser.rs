use ferrix::solver::error::FerrixError;
use ferrix::solver::ids::{ElementId, NodeId};
use ferrix::solver::inp::InpFile;
use ferrix::solver::mesh_lib::elements::element::ElementType;
use ferrix::solver::parser::Parser;
use ferrix::solver::project::Project;
use ferrix::solver::solvers::SolverType;
use ferrix::solver::step::steps::Step;

fn parse(text: &str) -> Result<Project, FerrixError> {
    let inp = InpFile::new(text);
    Parser::new(&inp).parse()
}

fn parse_error(text: &str) -> (usize, String) {
    match parse(text) {
        Err(FerrixError::ParseError { line, message }) => (line, message),
        Err(e) => panic!("unexpected error {e:?}"),
        Ok(_) => panic!("deck was accepted"),
    }
}

#[test]
fn test_multiple_boundary_lines() {
    let inp = "
*NODE
1, 0, 0, 0
2, 1, 0, 0
*BOUNDARY
1, 1, 1, 0.1
1, 2, 2, 0.2
*STEP
*STATIC
*BOUNDARY
2, 1, 1, 0.3
2, 2, 2, 0.4
*END STEP
";
    let inp_file = InpFile::new(inp);
    let parser = Parser::new(&inp_file);
    let project = parser.parse().unwrap();

    assert_eq!(project.initial_bcs.len(), 2, "Should have 2 initial BCs");
    assert_eq!(project.steps.len(), 1);
    let Step::StaticStep(step) = &project.steps[0];
    assert_eq!(
        step.bcs.len(),
        4,
        "Should have 4 step BCs (2 inherited + 2 new)"
    );
}

#[test]
fn test_multiple_amplitude_lines() {
    let inp = "
        *AMPLITUDE, NAME=TABULAR-1
        0, 0, 1, 100,
        2, 200, 3, 300
        ";
    let inp_file = InpFile::new(inp);
    let parser = Parser::new(&inp_file);
    let project = parser.parse().unwrap();

    let amp = project.amplitudes.get("TABULAR-1").unwrap();
    if let Some(ts) = &amp.data {
        let t: Vec<f64> = ts.0.iter().map(|s| s.parse().unwrap()).collect();
        let vals: Vec<f64> = ts.1.iter().map(|s| s.parse().unwrap()).collect();
        assert_eq!(t.len(), 4);
        assert_eq!(vals.len(), 4);
        assert_eq!(t, vec![0.0, 1.0, 2.0, 3.0]);
        assert_eq!(vals, vec![0.0, 100.0, 200.0, 300.0]);
    } else {
        panic!("Amplitude data should be present");
    }
}

#[test]
fn nodes_elements_and_sets() {
    let p = parse(
        "*NODE\n1, 0, 0, 0\n2, 1.5, 0, 0\n3, 0, 1, 0\n4, 0, 0, 1\n\
         *ELEMENT, TYPE=C3D4, ELSET=EALL\n7, 1, 2, 3, 4\n\
         *NSET, NSET=FIX\n1, 2\n3\n*NSET, NSET=GEN, GENERATE\n1, 10, 4\n\
         *ELSET, ELSET=COPY\nEALL\n*ELSET, ELSET=RANGE, GENERATE\n5, 6\n",
    )
    .unwrap();
    assert_eq!(p.mesh.nodes.len(), 4);
    assert_eq!(p.mesh.nodes[&2].x, "1.5");
    let e = &p.mesh.elements[&7];
    assert_eq!(e.get_id(), ElementId(7));
    assert_eq!(e.get_node_ids(), &[NodeId(1), NodeId(2), NodeId(3), NodeId(4)]);
    assert_eq!(p.mesh.element_sets.get("EALL"), Some(&vec![ElementId(7)]));
    assert_eq!(p.mesh.node_sets.get("FIX"), Some(&vec![NodeId(1), NodeId(2), NodeId(3)]));
    assert_eq!(p.mesh.node_sets.get("GEN"), Some(&vec![NodeId(1), NodeId(5), NodeId(9)]));
    assert_eq!(p.mesh.element_sets.get("COPY"), Some(&vec![ElementId(7)]));
    assert_eq!(p.mesh.element_sets.get("RANGE"), Some(&vec![ElementId(5), ElementId(6)]));
    assert_eq!(p.mesh.index_to_node_id, vec![NodeId(1), NodeId(2), NodeId(3), NodeId(4)]);
    assert_eq!(p.mesh.get_index_for_node_id(NodeId(3)), Some(2));
    assert_eq!(p.mesh.get_index_for_node_id(NodeId(9)), None);
}

#[test]
fn node_numbering_round_trips() {
    let p = parse("*NODE\n30, 0, 0, 0\n10, 1, 0, 0\n20, 0, 1, 0\n").unwrap();
    assert_eq!(p.mesh.index_to_node_id, vec![NodeId(10), NodeId(20), NodeId(30)]);
    for (i, id) in p.mesh.index_to_node_id.iter().enumerate() {
        assert_eq!(p.mesh.get_index_for_node_id(*id), Some(i));
    }
    for id in p.mesh.nodes.keys() {
        let i = p.mesh.get_index_for_node_id(NodeId(*id)).unwrap();
        assert_eq!(p.mesh.index_to_node_id[i], NodeId(*id));
    }
}

#[test]
fn loads_and_boundaries_have_dofs_0_to_2() {
    let p = parse(
        "*NODE\n1, 0, 0, 0\n2, 1, 0, 0\n*NSET, NSET=BOTH\n1, 2\n\
         *BOUNDARY\nBOTH, 0, 6, 0.5\n*CLOAD\n1, 4, 10.0\n2, 3, -5\n",
    )
    .unwrap();
    let dofs: Vec<(NodeId, usize)> = p.initial_bcs.iter().map(|b| (b.node_id(), b.dof())).collect();
    assert_eq!(
        dofs,
        vec![
            (NodeId(1), 0),
            (NodeId(1), 1),
            (NodeId(1), 2),
            (NodeId(2), 0),
            (NodeId(2), 1),
            (NodeId(2), 2)
        ]
    );
    assert!(p.initial_bcs.iter().all(|b| b.magnitude() == "0.5" && b.origin_step() == 0));
    assert_eq!(p.initial_loads.len(), 1);
    assert_eq!(p.initial_loads[0].node_id(), NodeId(2));
    assert_eq!(p.initial_loads[0].dof(), 2);
    assert_eq!(p.initial_loads[0].magnitude(), "-5");
}

#[test]
fn first_step_inherits_initial_conditions_and_op_new_clears() {
    let p = parse(
        "*NODE\n1, 0, 0, 0\n*BOUNDARY\n1, 1\n*CLOAD\n1, 2, 3.0\n\
         *STEP\n*STATIC\n*CLOAD, OP=NEW\n1, 3, 4.0\n*END STEP\n\
         *STEP, NLGEOM, INC=50\n*STATIC, SOLVER=ITERATIVE\n0.1, 1, 1E-05, 0.2\n*BOUNDARY, OP=NEW\n*END STEP\n",
    )
    .unwrap();
    assert_eq!(p.steps.len(), 2);
    let Step::StaticStep(s1) = &p.steps[0];
    assert_eq!(s1.bcs.len(), 1);
    assert_eq!(s1.bcs[0].magnitude(), "0");
    assert_eq!(s1.loads.len(), 1);
    assert_eq!(s1.loads[0].dof(), 2);
    assert_eq!(s1.loads[0].origin_step(), 1);
    assert_eq!(s1.solver, SolverType::Default);
    assert!(!s1.nlgeom);
    assert_eq!(s1.increment_data.max_iterations, 10000);
    assert_eq!(s1.increment_data.time_period, "1");
    let Step::StaticStep(s2) = &p.steps[1];
    assert_eq!(s2.bcs.len(), 0);
    assert_eq!(s2.loads.len(), 1);
    assert_eq!(s2.solver, SolverType::Iterative);
    assert!(s2.nlgeom);
    assert_eq!(s2.increment_data.max_iterations, 50);
    assert_eq!(s2.increment_data.initial_time_increment, "0.1");
    assert_eq!(s2.increment_data.min_time_increment, "1E-05");
    assert_eq!(s2.increment_data.max_time_increment, "0.2");
    assert_eq!(p.initial_bcs.len(), 1);
    assert_eq!(p.initial_loads.len(), 1);
    assert_eq!(p.initial_bcs[0].origin_step(), 0);
    assert_eq!(p.initial_loads[0].origin_step(), 0);
}

#[test]
fn step_without_end_is_closed_at_the_end() {
    let p = parse("*STEP\n*STATIC, SOLVER=PARDISO\n").unwrap();
    assert_eq!(p.steps.len(), 1);
    let Step::StaticStep(s) = &p.steps[0];
    assert_eq!(s.solver, SolverType::Direct);
}

#[test]
fn step_without_static_adds_no_step() {
    let p = parse("*STEP\n*END STEP\n").unwrap();
    assert_eq!(p.steps.len(), 0);
}

#[test]
fn materials_sections_and_outputs() {
    let p = parse(
        "*NODE\n1, 0, 0, 0\n2, 1, 0, 0\n3, 0, 1, 0\n4, 0, 0, 1\n\
         *ELEMENT, TYPE=C3D4, ELSET=E1\n1, 1, 2, 3, 4\n2, 1, 2, 3, 4\n\
         *MATERIAL, NAME=A\n*MATERIAL, NAME=B\n*DEPVAR\n3\n\
         *SOLID SECTION, ELSET=E1, MATERIAL=B\n*NODE FILE\nU, RF\n*EL FILE\nS\n",
    )
    .unwrap();
    assert_eq!(p.materials.len(), 2);
    assert_eq!(p.materials[1].name(), "B");
    assert_eq!(p.materials[1].num_state_variables(), 3);
    assert_eq!(p.materials[0].num_state_variables(), 0);
    assert_eq!(p.element_materials.get(&1), Some(&1));
    assert_eq!(p.element_materials.get(&2), Some(&1));
    assert_eq!(p.nodal_output, vec!["U", "RF"]);
    assert_eq!(p.element_output, vec!["S"]);
    assert!(p.element_materials.values().all(|k| *k < p.materials.len()));
}

#[test]
fn amplitude_shifts_and_time() {
    let p = parse("*AMPLITUDE, NAME=R, TIME=TOTAL TIME, SHIFTX=2.5, SHIFTY=X\n0, 1\n").unwrap();
    let a = p.amplitudes.get("R").unwrap();
    assert!(a.total_time);
    assert_eq!(a.shift_x, "2.5");
    assert_eq!(a.shift_y, "0");
    let p = parse("*NODE\n1,0,0,0\n*AMPLITUDE, NAME=R\n0, 0, 1, 2\n*CLOAD, AMPLITUDE=R\n1, 1, 1\n").unwrap();
    let l = &p.initial_loads[0];
    assert_eq!(l.amplitude().data.as_ref().unwrap().1, vec!["0", "2"]);
    let p = parse("*NODE\n1,0,0,0\n*CLOAD, AMPLITUDE=NONE\n1, 1, 1\n").unwrap();
    assert!(p.initial_loads[0].amplitude().data.is_none());
    assert_eq!(p.initial_loads[0].amplitude().shift_x, "0");
}

#[test]
fn errors_of_keyword_cards() {
    match parse("*NODE\n*FOO BAR, X=1\n") {
        Err(FerrixError::UnsupportedKeyword { line, keyword }) => {
            assert_eq!(line, 2);
            assert_eq!(keyword, "FOO BAR");
        },
        _ => panic!("expected an unsupported keyword"),
    }
    assert_eq!(parse_error("*MATERIAL\n"), (1, "Material name not found".to_string()));
    assert_eq!(parse_error("*AMPLITUDE\n"), (1, "Amplitude card is missing a Name= argument".to_string()));
    assert_eq!(parse_error("*SOLID SECTION, MATERIAL=A\n"), (1, "Elset not found in *SOLID SECTION".to_string()));
    assert_eq!(parse_error("*SOLID SECTION, ELSET=A\n"), (1, "Material not found in *SOLID SECTION".to_string()));
    match parse("*SOLID SECTION, ELSET=E, MATERIAL=M\n") {
        Err(FerrixError::MaterialNotFound(m)) => assert_eq!(m, "M"),
        _ => panic!("expected a missing material"),
    }
    match parse("*MATERIAL, NAME=M\n*SOLID SECTION, ELSET=E, MATERIAL=M\n") {
        Err(FerrixError::ElsetNotFound(e)) => assert_eq!(e, "E"),
        _ => panic!("expected a missing element set"),
    }
    match parse("*STEP\n*STATIC, SOLVER=MAGIC\n") {
        Err(FerrixError::UnknownSolver(s)) => assert_eq!(s, "MAGIC"),
        _ => panic!("expected an unknown solver"),
    }
    assert_eq!(
        parse_error("*MATERIAL, NAME=M\n*EXPANSION, ZERO=HOT\n"),
        (2, "Invalid ZERO value in *EXPANSION: invalid float literal".to_string())
    );
    assert_eq!(
        parse_error("*STEP\n*STATIC\n1, X, 1, 1\n"),
        (1, "Invalid time period: invalid float literal".to_string())
    );
}

#[test]
fn errors_of_data_lines() {
    assert_eq!(parse_error("*NODE\n1, 0, 0\n"), (2, "Invalid node definition: 1, 0, 0".to_string()));
    assert_eq!(parse_error("*NODE\n1,0,0,0\n*CLOAD\n1, X, 1\n"), (3, "Invalid DOF: invalid digit found in string".to_string()));
    assert_eq!(parse_error("*NODE\n1,0,0,0\n*CLOAD\n1, 1, A\n"), (3, "Invalid load value: invalid float literal".to_string()));
    assert_eq!(parse_error("*BOUNDARY\n1, \n"), (1, "Invalid first DOF: cannot parse integer from empty string".to_string()));
    assert_eq!(parse_error("*BOUNDARY\n1, 1, 99999999999999999999999\n"), (1, "Invalid last DOF: number too large to fit in target type".to_string()));
    assert_eq!(parse_error("*BOUNDARY\n1, 1, 2, Z\n"), (1, "Invalid boundary value: invalid float literal".to_string()));
    assert_eq!(parse_error("*MATERIAL, NAME=M\n*ELASTIC\n1, X\n"), (3, "Invalid elastic constant: invalid float literal".to_string()));
    assert_eq!(parse_error("*MATERIAL, NAME=M\n*DENSITY\n,\n"), (3, "Invalid density value: cannot parse float from empty string".to_string()));
    assert_eq!(parse_error("*MATERIAL, NAME=M\n*EXPANSION\nQ\n"), (3, "Invalid expansion constant: invalid float literal".to_string()));
    assert_eq!(parse_error("*MATERIAL, NAME=M\n*DEPVAR\n-1\n"), (3, "Invalid DEPVAR value: invalid digit found in string".to_string()));
    assert_eq!(
        parse_error("*INITIAL CONDITIONS, TYPE=temperature\n1, T\n"),
        (2, "Invalid temperature value: invalid float literal".to_string())
    );
    assert_eq!(parse_error("*AMPLITUDE, NAME=A\n0, 1, X\n"), (1, "Invalid amplitude time value: invalid float literal".to_string()));
    assert_eq!(parse_error("*AMPLITUDE, NAME=A\n0, Y\n"), (1, "Invalid amplitude value: invalid float literal".to_string()));
    match parse("*ELEMENT, TYPE=C3D4\n1, 2, 3\n") {
        Err(FerrixError::ParseError { line, message }) => {
            assert_eq!(line, 0);
            assert_eq!(message, "Wrong node count for C3D4");
        },
        _ => panic!("expected an element error"),
    }
}

#[test]
fn generate_with_increment_zero_is_refused() {
    let inp = InpFile::new("*NSET, NSET=A, GENERATE\n1, 5, 0\n");
    assert!(Parser::new(&inp).parse_checked().is_none());
    let inp = InpFile::new("*NSET, NSET=A, GENERATE\n1, 5, 2\n");
    let p = Parser::new(&inp).parse_checked().unwrap().unwrap();
    assert_eq!(p.mesh.node_sets.get("A"), Some(&vec![NodeId(1), NodeId(3), NodeId(5)]));
}

#[test]
fn lines_before_a_keyword_are_ignored() {
    let p = parse("1, 2, 3\n*HEADING\nanything goes\n").unwrap();
    assert_eq!(p.mesh.nodes.len(), 0);
}

#[test]
fn keywords_listed_as_supported_are_accepted() {
    let deck = "*HEADING\n*NODE\n1, 0, 0, 0\n2, 1, 0, 0\n3, 0, 1, 0\n4, 0, 0, 1\n\
        *ELEMENT, TYPE=C3D4, ELSET=E1\n1, 1, 2, 3, 4\n\
        *NSET, NSET=N1\n1, 2\n*ELSET, ELSET=E2\n1\n\
        *MATERIAL, NAME=STEEL\n*ELASTIC\n210000, 0.3\n*DENSITY\n7.85e-9\n*EXPANSION, ZERO=20\n1.2e-5\n*DEPVAR\n2\n\
        *SOLID SECTION, ELSET=E1, MATERIAL=STEEL\n\
        *INITIAL CONDITIONS, TYPE=TEMPERATURE\nN1, 20\n\
        *AMPLITUDE, NAME=A1\n0, 0, 1, 1\n\
        *BOUNDARY\nN1, 1, 3\n\
        *STEP, NLGEOM\n*STATIC\n0.5, 1, 1e-5, 0.5\n*CLOAD, AMPLITUDE=A1\n3, 2, 100\n\
        *NODE FILE\nU, RF\n*EL FILE\nS, E\n*NODE PRINT\nU\n*END STEP\n";
    let p = parse(deck).unwrap();
    assert_eq!(p.steps.len(), 1);
    assert_eq!(p.mesh.elements.len(), 1);
    assert_eq!(p.initial_temperatures.len(), 2);
    assert_eq!(p.element_materials.get(&1), Some(&0));
    let p = parse("*NODE\n*ELEMENT, TYPE=C3D20\n1, 1, 2, 3, 4, 5, 6, 7, 8, 9, 10, 11, 12, 13, 14, 15, 16, 17, 18, 19, 20\n").unwrap();
    assert_eq!(p.mesh.elements.len(), 1);
}

#[test]
fn elements_are_counted_by_type() {
    let p = parse(
        "*ELEMENT, TYPE=C3D4\n1, 1, 2, 3, 4\n2, 1, 2, 3, 4\n*ELEMENT, TYPE=C3D6\n3, 1, 2, 3, 4, 5, 6\n",
    )
    .unwrap();
    assert_eq!(p.mesh.count_by_type(), vec![(ElementType::C3D4, 2), (ElementType::C3D6, 1)]);
    assert_eq!(parse("*NODE\n").unwrap().mesh.count_by_type(), vec![]);
}

#[test]
fn only_a_generate_increment_of_zero_panics() {
    let inp = InpFile::new("*NODE\n1, 0, 0, 0\n*BOUNDARY\n1, 2, 0\n*ELSET, ELSET=E\n1, 2, 0\n");
    let p = Parser::new(&inp).parse_checked().unwrap().unwrap();
    assert_eq!(p.initial_bcs.len(), 0);
    assert_eq!(p.mesh.element_sets.get("E"), Some(&vec![ElementId(1), ElementId(2), ElementId(0)]));
    let inp = InpFile::new("*ELSET, ELSET=E, GENERATE\n1, 2, 0\n");
    assert!(Parser::new(&inp).parse_checked().is_none());
}

#[test]
fn every_documented_keyword_is_recognised() {
    let names = [
        "STEP", "STATIC", "END STEP", "MATERIAL", "ELASTIC", "DENSITY", "EXPANSION", "DEPVAR", "BOUNDARY", "CLOAD",
        "INITIAL CONDITIONS", "AMPLITUDE", "NODE", "ELEMENT", "NSET", "ELSET", "SOLID SECTION",
        "NODE FILE", "EL FILE", "NODE PRINT",
    ];
    for name in names {
        let deck = format!("*{name}, A=1\n");
        if let Err(FerrixError::UnsupportedKeyword { keyword, .. }) = parse(&deck) {
            panic!("{keyword} was refused");
        }
        let snake: Vec<char> = name.replace(' ', "_").chars().collect();
        assert!(ferrix::solver::parser::Keyword::from_name(&snake).is_some());
    }
}

#[test]
fn a_deck_of_documented_keywords_is_not_refused() {
    let deck = "*NODE\n1, 0, 0, 0\n*ELEMENT, TYPE=C3D4, ELSET=E\n1, 1, 1, 1, 1\n*NSET, NSET=N\n1\n*MATERIAL, NAME=S\n*ELASTIC\n210000, 0.3\n*DENSITY\n7.8e-9\n*EXPANSION\n1.2e-5\n*DEPVAR\n2\n*SOLID SECTION, ELSET=E, MATERIAL=S\n*INITIAL CONDITIONS, TYPE=TEMPERATURE\nN, 20\n*AMPLITUDE, NAME=R\n0, 0, 1, 1\n*STEP\n*STATIC\n*BOUNDARY\n1, 1, 3\n*CLOAD, AMPLITUDE=R\n1, 1, 5.0\n*NODE FILE\nU\n*EL FILE\nS\n*NODE PRINT\nU\n*END STEP\n";
    match parse(deck) {
        Ok(p) => assert_eq!(p.steps.len(), 1),
        Err(e) => panic!("deck refused: {e:?}"),
    }
}

#[test]
fn a_nan_temperature_in_a_table_of_two_rows_panics() {
    let one_row = InpFile::new("*MATERIAL, NAME=A\n*DENSITY\n7.8, nan\n");
    let p = Parser::new(&one_row).parse_checked().unwrap().unwrap();
    assert_eq!(p.materials[0].density.as_ref().unwrap().data.len(), 1);
    let two_rows = InpFile::new("*MATERIAL, NAME=A\n*DENSITY\n7.8, NaN\n7.9, 100\n");
    assert!(Parser::new(&two_rows).parse_checked().is_none());
    let nan_second = InpFile::new("*MATERIAL, NAME=A\n*ELASTIC\n210000, 0.3, 20\n200000, 0.3, -nan\n");
    assert!(Parser::new(&nan_second).parse_checked().is_none());
    let expansion = InpFile::new("*MATERIAL, NAME=A\n*EXPANSION\n1E-5, 20\n2E-5, +NAN\n");
    assert!(Parser::new(&expansion).parse_checked().is_none());
    let fine = InpFile::new("*MATERIAL, NAME=A\n*DENSITY\n7.8, 20\n7.9, 100\n");
    assert_eq!(Parser::new(&fine).parse_checked().unwrap().unwrap().materials[0].density.as_ref().unwrap().data.len(), 2);
}
