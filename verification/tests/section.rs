use ferrix::solver::inp::InpFile;
use ferrix::solver::section::{Section, SectionString};

#[test]
fn test_input_parsing() {
    let input = InpFile::new(
        "*Solid section, Elset=Internal_Selection-1_Solid_Section-1, Material=S235
            *Solid section, Elset=Internal_Selection-1_Solid_Section-2, Material=S355",
    );

    let parsed = SectionString::parse_input(&input);

    let correct = vec![
        Section::SolidSection(
            "INTERNAL_SELECTION-1_SOLID_SECTION-1".to_string(),
            "S235".to_string(),
        ),
        Section::SolidSection(
            "INTERNAL_SELECTION-1_SOLID_SECTION-2".to_string(),
            "S355".to_string(),
        ),
    ];

    assert_eq!(correct, parsed);
}
