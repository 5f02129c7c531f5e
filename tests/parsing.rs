use autocxx_engine::api::{ApiDetail, Passing};
use autocxx_engine::parse::{starts_with, ParseBindgen, UnsafePolicy};
use autocxx_engine::safety::{identify_byvalue_safe_types, Safety};
use autocxx_engine::types::{
    ConstDecl, ConvertError, Decl, Field, FnDecl, Param, StructDecl, TypeDatabase, UseDecl,
};

fn db() -> TypeDatabase {
    TypeDatabase { pod_requests: vec![], allowlist: vec![], primitives: vec!["int".to_string()] }
}

fn decls() -> Vec<Decl> {
    vec![
        Decl::Struct(StructDecl {
            name: "Point".to_string(),
            fields: vec![
                Field { name: "x".to_string(), ty: "int".to_string() },
                Field { name: "y".to_string(), ty: "int".to_string() },
            ],
            trivially_copyable: true,
        }),
        Decl::Struct(StructDecl {
            name: "Str".to_string(),
            fields: vec![],
            trivially_copyable: false,
        }),
        Decl::Function(FnDecl {
            name: "draw".to_string(),
            params: vec![
                Param { name: "p".to_string(), ty: "Point".to_string() },
                Param { name: "s".to_string(), ty: "Str".to_string() },
            ],
            ret: Some("int".to_string()),
            marked_unsafe: true,
        }),
        Decl::Const(ConstDecl { name: "LIMIT".to_string(), ty: "int".to_string() }),
        Decl::Use(UseDecl { namespace: "ns".to_string(), path: "ns::Thing".to_string() }),
        Decl::Const(ConstDecl { name: "utilities::helper".to_string(), ty: "int".to_string() }),
    ]
}

fn parse(ds: Vec<Decl>, policy: UnsafePolicy, exclude: bool) -> Result<autocxx_engine::parse::ParseResults, ConvertError> {
    let d = db();
    let checker = identify_byvalue_safe_types(&ds, &d).unwrap();
    ParseBindgen::new(checker, &d, policy).convert_items(ds, exclude)
}

#[test]
fn declarations_become_records_with_edges_and_passing_modes() {
    let r = parse(decls(), UnsafePolicy::PerFunctionMarked, false).unwrap();
    let names: Vec<&str> = r.apis.iter().map(|a| a.name.as_str()).collect();
    assert_eq!(names, vec!["Point", "Str", "draw", "LIMIT", "utilities::helper"]);
    assert_eq!(r.apis[0].deps, vec!["int", "int"]);
    assert!(matches!(r.apis[0].detail, ApiDetail::Type { safety: Safety::ByValueSafe }));
    assert!(matches!(r.apis[1].detail, ApiDetail::Type { safety: Safety::NotSafe }));
    assert_eq!(r.apis[2].deps, vec!["Point", "Str", "int"]);
    match &r.apis[2].detail {
        ApiDetail::Function { params, ret, needs_unsafe } => {
            assert_eq!(params, &vec![Passing::ByValue, Passing::ByReference]);
            assert_eq!(*ret, Some(Passing::ByValue));
            assert!(*needs_unsafe);
        }
        _ => panic!("expected a function"),
    }
    assert_eq!(r.apis[3].deps, vec!["int"]);
    assert_eq!(r.use_stmts_by_mod.len(), 1);
    assert_eq!(r.use_stmts_by_mod[0].namespace, "ns");
    assert_eq!(r.use_stmts_by_mod[0].path, "ns::Thing");
}

#[test]
fn unsafe_policy_decides_annotation() {
    for (policy, expected) in [
        (UnsafePolicy::AllFunctionsSafe, false),
        (UnsafePolicy::AllFunctionsUnsafe, true),
        (UnsafePolicy::PerFunctionMarked, true),
    ] {
        let r = parse(decls(), policy, false).unwrap();
        match &r.apis[2].detail {
            ApiDetail::Function { needs_unsafe, .. } => assert_eq!(*needs_unsafe, expected),
            _ => panic!("expected a function"),
        }
    }
}

#[test]
fn excluded_utilities_are_not_emitted() {
    let r = parse(decls(), UnsafePolicy::AllFunctionsSafe, true).unwrap();
    let names: Vec<&str> = r.apis.iter().map(|a| a.name.as_str()).collect();
    assert_eq!(names, vec!["Point", "Str", "draw", "LIMIT"]);
}

#[test]
fn unsupported_declaration_aborts_parsing() {
    let mut ds = decls();
    ds.insert(1, Decl::Unsupported("weird".to_string()));
    ds.push(Decl::Unsupported("later".to_string()));
    match parse(ds, UnsafePolicy::AllFunctionsSafe, false) {
        Err(ConvertError::UnrecognizedDeclaration(n)) => assert_eq!(n, "weird"),
        _ => panic!("expected an unrecognised declaration"),
    }
}

#[test]
fn excluded_unsupported_declaration_is_not_an_error() {
    let mut ds = decls();
    ds.push(Decl::Unsupported("utilities::odd".to_string()));
    assert!(parse(ds, UnsafePolicy::AllFunctionsSafe, true).is_ok());
}

#[test]
fn prefix_test() {
    assert!(starts_with("utilities::x", "utilities::"));
    assert!(starts_with("abc", ""));
    assert!(!starts_with("util", "utilities::"));
    assert!(!starts_with("xutilities::", "utilities::"));
}
