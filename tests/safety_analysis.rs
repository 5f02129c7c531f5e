use autocxx_engine::safety::{identify_byvalue_safe_types, Safety};
use autocxx_engine::types::{ConvertError, Decl, Field, StructDecl, TypeDatabase};

fn strukt(name: &str, fields: &[(&str, &str)], trivially_copyable: bool) -> Decl {
    Decl::Struct(StructDecl {
        name: name.to_string(),
        fields: fields
            .iter()
            .map(|(n, t)| Field { name: n.to_string(), ty: t.to_string() })
            .collect(),
        trivially_copyable,
    })
}

fn db(requests: &[&str]) -> TypeDatabase {
    TypeDatabase {
        pod_requests: requests.iter().map(|s| s.to_string()).collect(),
        allowlist: vec![],
        primitives: vec!["int".to_string(), "char".to_string()],
    }
}

fn classify(ds: &Vec<Decl>, d: &TypeDatabase, name: &str) -> Safety {
    let c = identify_byvalue_safe_types(ds, d).unwrap();
    c.classify(ds, &d.primitives, &name.to_string())
}

#[test]
fn point_is_byvalue_safe_and_self_referential_node_is_not() {
    let ds = vec![
        strukt("Point", &[("x", "int"), ("y", "int")], true),
        strukt("Node", &[("next", "Node")], true),
    ];
    let d = db(&[]);
    assert_eq!(classify(&ds, &d, "Point"), Safety::ByValueSafe);
    assert_eq!(classify(&ds, &d, "Node"), Safety::NotSafe);
}

#[test]
fn mutually_dependent_types_are_not_safe() {
    let ds = vec![strukt("A", &[("b", "B")], true), strukt("B", &[("a", "A")], true)];
    let d = db(&[]);
    assert_eq!(classify(&ds, &d, "A"), Safety::NotSafe);
    assert_eq!(classify(&ds, &d, "B"), Safety::NotSafe);
}

#[test]
fn type_depending_on_a_cycle_is_not_safe() {
    let ds = vec![
        strukt("Outer", &[("n", "Node"), ("x", "int")], true),
        strukt("Node", &[("next", "Node")], true),
    ];
    assert_eq!(classify(&ds, &db(&[]), "Outer"), Safety::NotSafe);
}

#[test]
fn safety_propagates_through_a_chain() {
    let ds = vec![
        strukt("C", &[("b", "B")], true),
        strukt("B", &[("a", "A")], true),
        strukt("A", &[("x", "int"), ("c", "char")], true),
    ];
    let d = db(&["C"]);
    assert_eq!(classify(&ds, &d, "C"), Safety::ByValueSafe);
    assert_eq!(classify(&ds, &d, "B"), Safety::ByValueSafe);
}

#[test]
fn non_trivially_copyable_type_is_not_safe() {
    let ds = vec![strukt("S", &[("x", "int")], false)];
    assert_eq!(classify(&ds, &db(&[]), "S"), Safety::NotSafe);
}

#[test]
fn undeclared_non_primitive_type_is_unknown() {
    let ds = vec![strukt("S", &[("x", "int")], true)];
    let d = db(&[]);
    assert_eq!(classify(&ds, &d, "std::string"), Safety::Unknown);
    assert_eq!(classify(&ds, &d, "int"), Safety::ByValueSafe);
}

#[test]
fn requesting_by_value_for_type_with_non_trivial_field_is_violation() {
    let ds = vec![
        strukt("Holder", &[("s", "Str")], true),
        strukt("Str", &[("p", "char")], false),
    ];
    match identify_byvalue_safe_types(&ds, &db(&["Holder"])) {
        Err(ConvertError::SafetyViolation(name)) => assert_eq!(name, "Holder"),
        _ => panic!("expected a safety violation"),
    }
}

#[test]
fn first_rejected_request_is_reported() {
    let ds = vec![strukt("Ok1", &[("x", "int")], true), strukt("Bad", &[("x", "Bad")], true)];
    match identify_byvalue_safe_types(&ds, &db(&["Ok1", "Unknown1", "Bad"])) {
        Err(ConvertError::SafetyViolation(name)) => assert_eq!(name, "Unknown1"),
        _ => panic!("expected a safety violation"),
    }
}

#[test]
fn reanalysis_with_own_safe_types_requested_gives_same_table() {
    let ds = vec![
        strukt("Point", &[("x", "int"), ("y", "int")], true),
        strukt("Node", &[("next", "Node")], true),
        strukt("Line", &[("a", "Point"), ("b", "Point")], true),
    ];
    let first = identify_byvalue_safe_types(&ds, &db(&[])).unwrap();
    let safe_names: Vec<&str> = ["Point", "Node", "Line"]
        .iter()
        .copied()
        .filter(|n| first.classify(&ds, &db(&[]).primitives, &n.to_string()) == Safety::ByValueSafe)
        .collect();
    assert_eq!(safe_names, vec!["Point", "Line"]);
    let again = identify_byvalue_safe_types(&ds, &db(&safe_names)).unwrap();
    assert_eq!(first.safe, again.safe);
    assert_eq!(again.safe, vec![true, false, true]);
}
