use autocxx_engine::conversion::BridgeConverter;
use autocxx_engine::parse::UnsafePolicy;
use autocxx_engine::types::{
    ConvertError, Decl, Field, FnDecl, Item, ItemMod, Param, RootMod, StructDecl, TypeDatabase,
};

fn strukt(name: &str, fields: &[&str], trivially_copyable: bool) -> Decl {
    Decl::Struct(StructDecl {
        name: name.to_string(),
        fields: fields.iter().map(|t| Field { name: "f".to_string(), ty: t.to_string() }).collect(),
        trivially_copyable,
    })
}

fn tree(ds: Vec<Decl>) -> ItemMod {
    ItemMod {
        ident: "bindgen".to_string(),
        content: Some(vec![Item::Mod(RootMod { ident: "root".to_string(), content: Some(ds) })]),
    }
}

fn db(requests: &[&str], allowlist: &[&str]) -> TypeDatabase {
    TypeDatabase {
        pod_requests: requests.iter().map(|s| s.to_string()).collect(),
        allowlist: allowlist.iter().map(|s| s.to_string()).collect(),
        primitives: vec!["int".to_string()],
    }
}

#[test]
fn new_keeps_its_arguments() {
    let includes = vec!["a.h".to_string()];
    let d = db(&[], &[]);
    let c = BridgeConverter::new(&includes, &d);
    assert_eq!(c.include_list, &includes[..]);
    assert!(std::ptr::eq(c.type_database, &d));
}

#[test]
fn end_to_end_prunes_to_allowlist() {
    let includes = vec!["a.h".to_string(), "b.h".to_string()];
    let d = db(&["Point"], &["Foo"]);
    let mut c = BridgeConverter::new(&includes, &d);
    let ds = vec![
        strukt("Point", &["int", "int"], true),
        strukt("Foo", &["Bar"], false),
        strukt("Bar", &["Baz"], false),
        strukt("Baz", &["int"], false),
        strukt("Qux", &[], true),
    ];
    let r = c.convert(tree(ds), false, UnsafePolicy::AllFunctionsSafe).unwrap();
    let names: Vec<&str> = r.apis.iter().map(|a| a.name.as_str()).collect();
    assert_eq!(names, vec!["Foo", "Bar", "Baz"]);
    assert_eq!(r.include_list, includes);
}

#[test]
fn end_to_end_function_reaches_its_types() {
    let d = db(&[], &["go"]);
    let mut c = BridgeConverter::new(&[], &d);
    let ds = vec![
        strukt("P", &["int"], true),
        strukt("Unused", &[], true),
        Decl::Function(FnDecl {
            name: "go".to_string(),
            params: vec![Param { name: "p".to_string(), ty: "P".to_string() }],
            ret: None,
            marked_unsafe: false,
        }),
    ];
    let r = c.convert(tree(ds), false, UnsafePolicy::AllFunctionsSafe).unwrap();
    let names: Vec<&str> = r.apis.iter().map(|a| a.name.as_str()).collect();
    assert_eq!(names, vec!["P", "go"]);
}

#[test]
fn end_to_end_requested_type_with_non_trivial_field_fails() {
    let d = db(&["Holder"], &["Holder"]);
    let mut c = BridgeConverter::new(&[], &d);
    let ds = vec![strukt("Holder", &["Str"], true), strukt("Str", &[], false)];
    match c.convert(tree(ds), false, UnsafePolicy::AllFunctionsSafe) {
        Err(ConvertError::SafetyViolation(n)) => assert_eq!(n, "Holder"),
        _ => panic!("expected a safety violation"),
    }
}

#[test]
fn end_to_end_two_top_level_containers_fail() {
    let d = db(&[], &[]);
    let mut c = BridgeConverter::new(&[], &d);
    let m = ItemMod {
        ident: "bindgen".to_string(),
        content: Some(vec![
            Item::Mod(RootMod { ident: "root".to_string(), content: Some(vec![]) }),
            Item::Mod(RootMod { ident: "root".to_string(), content: Some(vec![]) }),
        ]),
    };
    assert!(matches!(c.convert(m, false, UnsafePolicy::AllFunctionsSafe), Err(ConvertError::UnexpectedOuterItem)));
}

#[test]
fn end_to_end_tree_without_body_has_no_content() {
    let d = db(&[], &[]);
    let mut c = BridgeConverter::new(&[], &d);
    let m = ItemMod { ident: "bindgen".to_string(), content: None };
    assert!(matches!(c.convert(m, false, UnsafePolicy::AllFunctionsSafe), Err(ConvertError::NoContent)));
}

#[test]
fn end_to_end_unsupported_declaration_fails() {
    let d = db(&[], &[]);
    let mut c = BridgeConverter::new(&[], &d);
    let ds = vec![strukt("A", &[], true), Decl::Unsupported("macro_thing".to_string())];
    match c.convert(tree(ds), false, UnsafePolicy::AllFunctionsSafe) {
        Err(ConvertError::UnrecognizedDeclaration(n)) => assert_eq!(n, "macro_thing"),
        _ => panic!("expected an unrecognised declaration"),
    }
}
