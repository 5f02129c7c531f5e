use autocxx_engine::api::{Api, ApiDetail};
use autocxx_engine::gc::filter_apis_by_following_edges_from_allowlist;
use autocxx_engine::types::TypeDatabase;

fn api(name: &str, deps: &[&str]) -> Api {
    Api { name: name.to_string(), detail: ApiDetail::Const, deps: deps.iter().map(|s| s.to_string()).collect() }
}

fn allow(names: &[&str]) -> TypeDatabase {
    TypeDatabase {
        pod_requests: vec![],
        allowlist: names.iter().map(|s| s.to_string()).collect(),
        primitives: vec![],
    }
}

fn survivor_names(apis: Vec<Api>, names: &[&str]) -> Vec<String> {
    filter_apis_by_following_edges_from_allowlist(apis, &allow(names)).into_iter().map(|a| a.name).collect()
}

fn sample() -> Vec<Api> {
    vec![api("Foo", &["Bar"]), api("Bar", &["Baz"]), api("Baz", &[]), api("Qux", &[])]
}

#[test]
fn chain_from_allowlisted_root_survives_and_isolated_record_is_pruned() {
    assert_eq!(survivor_names(sample(), &["Foo"]), vec!["Foo", "Bar", "Baz"]);
}

#[test]
fn adding_a_name_to_the_allowlist_only_adds_survivors() {
    let small = survivor_names(sample(), &["Bar"]);
    let large = survivor_names(sample(), &["Bar", "Qux"]);
    assert_eq!(small, vec!["Bar", "Baz"]);
    assert_eq!(large, vec!["Bar", "Baz", "Qux"]);
    assert!(small.iter().all(|n| large.contains(n)));
}

#[test]
fn order_of_edges_and_records_does_not_change_survivors() {
    let a = vec![api("A", &["B", "C"]), api("B", &["D"]), api("C", &[]), api("D", &[]), api("E", &["A"])];
    let b = vec![api("D", &[]), api("E", &["A"]), api("C", &[]), api("B", &["D"]), api("A", &["C", "B"])];
    let mut ra = survivor_names(a, &["A"]);
    let mut rb = survivor_names(b, &["A"]);
    ra.sort();
    rb.sort();
    assert_eq!(ra, rb);
    assert_eq!(ra, vec!["A", "B", "C", "D"]);
}

#[test]
fn allowlisted_name_without_record_is_ignored() {
    assert_eq!(survivor_names(sample(), &["Missing"]), Vec::<String>::new());
    assert_eq!(survivor_names(sample(), &["Missing", "Baz"]), vec!["Baz"]);
}

#[test]
fn cyclic_references_terminate() {
    let apis = vec![api("A", &["B"]), api("B", &["A"]), api("C", &["A"])];
    assert_eq!(survivor_names(apis, &["B"]), vec!["A", "B"]);
}

#[test]
fn edge_to_unknown_name_leads_nowhere() {
    let apis = vec![api("A", &["Nowhere"]), api("B", &[])];
    assert_eq!(survivor_names(apis, &["A"]), vec!["A"]);
}

#[test]
fn empty_allowlist_prunes_everything() {
    assert_eq!(survivor_names(sample(), &[]), Vec::<String>::new());
}
