use ferrix::components::project::preprocess_inp as components_preprocess_inp;
use ferrix::solver::inp::InpFile;
use ferrix::solver::parser::{normalize_inp, preprocess_inp, substitute_ccx_solvers};
use ferrix::solver::parsing::preprocess_inp as parsing_preprocess_inp;

#[test]
fn project_test_preprocess_inp() {
    let inp = "**comment\n word  \n \t*keyword\n123.4\n4, 5, 6,\n7, 8, 9";
    assert_eq!(
        components_preprocess_inp(inp),
        "WORD\n*KEYWORD\n123.4\n4, 5, 6, 7, 8, 9\n"
    );
}

#[test]
fn parser_test_preprocess_inp() {
    let inp = "**comment\n word  \n \t*keyword\n123.4\n4, 5, 6,\n7, 8, 9";
    assert_eq!(
        preprocess_inp(inp),
        "WORD\n*KEYWORD\n123.4\n4, 5, 6, 7, 8, 9\n"
    );
}

#[test]
fn parsing_test_preprocess_inp() {
    let inp = "**comment\n word  \n \t*keyword\n123.4\n4, 5, 6,\n7, 8, 9";
    assert_eq!(
        parsing_preprocess_inp(inp),
        "WORD\n*KEYWORD\n123.4\n4, 5, 6, 7, 8, 9\n"
    );
}

#[test]
fn solver_names_of_calculix_are_mapped() {
    assert_eq!(
        substitute_ccx_solvers("*STATIC, SOLVER=PARDISO\n*STATIC, SOLVER=ITERATIVE CHOLESKY\n"),
        "*STATIC, SOLVER=DIRECT\n*STATIC, SOLVER=ITERATIVE\n"
    );
    assert_eq!(substitute_ccx_solvers("SPOOLES PASTIX ITERATIVE SCALING"), "DIRECT DIRECT ITERATIVE");
    assert_eq!(substitute_ccx_solvers("*STEP\n"), "*STEP\n");
}

#[test]
fn preprocess_maps_solver_names_after_uppercasing() {
    assert_eq!(preprocess_inp("*static, solver=spooles"), "*STATIC, SOLVER=DIRECT\n");
}

#[test]
fn normalisation_uppercases_non_ascii_letters() {
    assert_eq!(normalize_inp("  größe  "), "GRÖSSE\n");
    assert_eq!(normalize_inp("é,\nà"), "É, À\n");
}

#[test]
fn normalisation_drops_blank_and_comment_lines() {
    assert_eq!(normalize_inp("\n\n** a comment\n   \n*node\r\n1, 0, 0, 0\n"), "*NODE\n1, 0, 0, 0\n");
    assert_eq!(normalize_inp(""), "");
    assert_eq!(normalize_inp("1,\n2,"), "1, 2,\n");
}

#[test]
fn inp_file_holds_the_preprocessed_text() {
    let f = InpFile::new("*step\n*static, solver=pardiso\n");
    assert_eq!(f.0, "*STEP\n*STATIC, SOLVER=DIRECT\n");
}

#[test]
fn the_two_preprocessors_agree_on_ascii_decks() {
    let deck = "** header\n*Node\n 1, 0.0, 0.0, 0.0 \n*ELEMENT, type=C3D4,\n elset=E\n1, 1, 2, 3, 4\n";
    assert_eq!(parsing_preprocess_inp(deck), preprocess_inp(deck));
    assert_eq!(preprocess_inp(deck), "*NODE\n1, 0.0, 0.0, 0.0\n*ELEMENT, TYPE=C3D4, ELSET=E\n1, 1, 2, 3, 4\n");
}

#[test]
fn normalised_lines_are_trimmed_uppercase_and_not_comments() {
    let out = normalize_inp("  *step , nlgeom\n**c\n\n a,\nb \n");
    assert_eq!(out, "*STEP , NLGEOM\nA, B\n");
    for line in out.lines() {
        assert!(!line.is_empty());
        assert_eq!(line, line.trim());
        assert!(!line.starts_with("**"));
        assert!(!line.ends_with(','));
        assert!(!line.chars().any(|c| c.is_ascii_lowercase()));
    }
}
