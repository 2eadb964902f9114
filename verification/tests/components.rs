use ferrix::components::mesh_lib::element_set::ElementSet;
use ferrix::components::mesh_lib::elements::c3d20::C3D20;
use ferrix::components::mesh_lib::elements::element::Element;
use ferrix::components::project::{parse_sections_from_str, InpSection};

#[test]
fn sections_of_a_deck() {
    let s = parse_sections_from_str("*HEADING\n*NODE\n1, 0, 0, 0\n*ELEMENT, TYPE=C3D4\n*NODE FILE\n");
    assert_eq!(s, vec![InpSection::Node(1), InpSection::Element(3)]);
}

#[test]
fn element_set_reads_the_type() {
    let set = ElementSet::from_string("*NODE\n*ELEMENT, TYPE = C3D20 , ELSET=A", 1).unwrap();
    assert_eq!(set.elem_type, " C3D20");
    assert!(set.elements.is_empty());
    assert_eq!(
        ElementSet::from_string("*ELEMENT", 0).unwrap_err(),
        "Invalid Element definition on line {line_nr}"
    );
}

#[test]
fn components_element_lines() {
    assert_eq!(Element::parse_type_str_from_line("*ELEMENT, TYPE=S8").unwrap(), "S8");
    assert_eq!(Element::parse_type_str_from_line("*ELEMENT, ELSET=E1, TYPE=C3D4").unwrap(), "E1");
    assert_eq!(Element::parse_type_str_from_line("*ELEMENT, C3D4").unwrap(), "C3D4");
    assert_eq!(
        Element::parse_type_str_from_line("*ELEMENT").unwrap_err(),
        "Invalid Element definition on line {line_nr}"
    );
    match Element::parse_line("C3D4", "5, 1, 2, 3, 4") {
        Element::C3D4(id, nodes) => {
            assert_eq!(id, 5);
            assert_eq!(nodes, [1, 2, 3, 4]);
        },
        _ => panic!("wrong element kind"),
    }
    match Element::parse_line("S8", "9, 1, 2, 3, 4, 5, 6, 7, 8") {
        Element::S8(id, nodes) => {
            assert_eq!(id, 9);
            assert_eq!(nodes[7], 8);
        },
        _ => panic!("wrong element kind"),
    }
    assert_eq!(C3D20::name(), "C3D20");
}
