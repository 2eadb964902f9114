use ferrix::solver::parser::{get_keyword_arguments, get_positional_arguments, Keyword};

#[test]
fn keyword_args() {
    let line = "*STEP , INC =  100";
    let args = get_keyword_arguments(line);
    assert!(args.get("INC") == Some(&Some("100".to_string())));
}

#[test]
fn positional_args() {
    let line = "0.1, 1, 1E-05, 0.2";
    let args = get_positional_arguments(line);
    assert_eq!(args, vec!["0.1", "1", "1E-05", "0.2"]);
}

#[test]
fn keyword_args_flags_and_last_wins() {
    let args = get_keyword_arguments("*STEP, NLGEOM, INC=5, INC=7");
    assert!(args.get("NLGEOM") == Some(&None));
    assert!(args.get("INC") == Some(&Some("7".to_string())));
    assert!(args.get("STEP").is_none());
    assert_eq!(args.len(), 2);
}

#[test]
fn keyword_args_value_with_equals() {
    let args = get_keyword_arguments("*AMPLITUDE, NAME = A=B ");
    assert!(args.get("NAME") == Some(&Some("A=B".to_string())));
}

#[test]
fn keywords_by_name() {
    let n: Vec<char> = "SOLID_SECTION".chars().collect();
    assert_eq!(Keyword::from_name(&n), Some(Keyword::SolidSection));
    let n: Vec<char> = "END_STEP".chars().collect();
    assert_eq!(Keyword::from_name(&n), Some(Keyword::EndStep));
    let n: Vec<char> = "SOLID SECTION".chars().collect();
    assert_eq!(Keyword::from_name(&n), None);
}
