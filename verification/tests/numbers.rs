use ferrix::solver::mesh_lib::node::Node;
use ferrix::solver::parser::get_positional_arguments;

const FLOATS: &[&str] = &[
    "1", "1.", ".5", "-.5", "+1e5", "1e+5", "1E-05", "inf", "-Infinity", "NaN", "nan", "infinity", "INF",
    "+nan", "e5", "1e", "1.2.3", "", "--1", "+", "-", ".", "1_000", "0x10", "1e5.0", "infinit", "1e-",
    "0.000", "12345678901234567890", "1.5E3", "-0", "+.e1", ".e1", "5.e2",
];

const INTEGERS: &[&str] = &[
    "0", "+5", "-0", "007", "", "+", "-", "18446744073709551615", "18446744073709551616", "1.0", "x",
    "+-1",
];

#[test]
fn float_literals_match_f64_from_str() {
    for lit in FLOATS {
        let line = format!("1, {lit}, 0, 0");
        assert_eq!(
            Node::parse_line(&line).is_some(),
            lit.parse::<f64>().is_ok(),
            "literal {lit:?}"
        );
    }
}

#[test]
fn integer_literals_match_usize_from_str() {
    for lit in INTEGERS {
        let line = format!("{lit}, 0, 0, 0");
        assert_eq!(
            Node::parse_line(&line).map(|n| n.id.0),
            lit.parse::<usize>().ok(),
            "literal {lit:?}"
        );
    }
}

#[test]
fn pieces_are_trimmed_but_not_filtered() {
    assert_eq!(get_positional_arguments(" a ,, b,"), vec!["a", "", "b", ""]);
    assert_eq!(get_positional_arguments(""), vec![""]);
}
