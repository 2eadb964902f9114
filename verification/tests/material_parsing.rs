use ferrix::solver::inp::InpFile;
use ferrix::solver::material::TemperatureDependentLUT;
use ferrix::solver::parser::Parser;

fn rows(t: &Option<TemperatureDependentLUT>) -> Vec<(f64, f64)> {
    t.as_ref()
        .unwrap()
        .data
        .iter()
        .map(|(a, b)| (a.parse().unwrap(), b.parse().unwrap()))
        .collect()
}

#[test]
fn test_temperature_dependent_material_parsing() {
    let inp_content = "
*MATERIAL, NAME=TestMat
*DENSITY
1000.0, 0.0
900.0, 500.0
*ELASTIC
210000.0, 0.3, 0.0
150000.0, 0.35, 500.0
";
    let inp = InpFile::new(inp_content);
    let project = Parser::new(&inp).parse().unwrap();

    assert_eq!(project.materials.len(), 1);
    let mat = &project.materials[0];
    assert_eq!(mat.name(), "TESTMAT");

    assert_eq!(rows(&mat.density), vec![(0.0, 1000.0), (500.0, 900.0)]);
    assert_eq!(rows(&mat.youngs_modulus), vec![(0.0, 210_000.0), (500.0, 150_000.0)]);
    assert_eq!(rows(&mat.poisson_ratio), vec![(0.0, 0.3), (500.0, 0.35)]);
}

#[test]
fn test_thermal_expansion_parsing() {
    let inp_content = "
*MATERIAL, NAME=ThermalMat
*EXPANSION, ZERO=20.0
1.2E-5, 0.0
1.5E-5, 500.0
*INITIAL CONDITIONS, TYPE=TEMPERATURE
1, 100.0
";
    let inp = InpFile::new(inp_content);
    let project = Parser::new(&inp).parse().unwrap();

    let mat = &project.materials[0];
    assert_eq!(mat.reference_temperature.parse::<f64>().unwrap(), 20.0);
    assert_eq!(rows(&mat.thermal_expansion), vec![(0.0, 1.2E-5), (500.0, 1.5E-5)]);

    assert_eq!(project.initial_temperatures.get(&1).map(|t| t.parse::<f64>().unwrap()), Some(100.0));
}

#[test]
fn elastic_rows_keep_deck_order_and_default_temperature() {
    let inp = InpFile::new("*MATERIAL, NAME=M\n*ELASTIC\n2, 0.2, 300\n1, 0.1\n");
    let project = Parser::new(&inp).parse().unwrap();
    let m = &project.materials[0];
    assert_eq!(rows(&m.youngs_modulus), vec![(300.0, 2.0), (0.0, 1.0)]);
    assert_eq!(m.youngs_modulus.as_ref().unwrap().data[1].0, "0");
}
