//! Prunes API records to those reachable from the allowlist.

use vstd::prelude::*;
use crate::api::Api;
use crate::types::{contains_name, has_name, TypeDatabase};

verus! {

/// The name `n` is reached from the allowlist in at most `k` steps along the
/// dependencies of records.
pub open spec fn reach_within(apis: Seq<Api>, allow: Seq<String>, n: Seq<char>, k: nat) -> bool
    decreases k,
{
    if k == 0 {
        has_name(allow, n)
    } else {
        reach_within(apis, allow, n, (k - 1) as nat) || exists|i: int|
            0 <= i < apis.len() && reach_within(apis, allow, #[trigger] apis[i].name@, (k - 1) as nat)
                && has_name(apis[i].deps@, n)
    }
}

/// The name `n` is reachable from the allowlist.
pub open spec fn reachable(apis: Seq<Api>, allow: Seq<String>, n: Seq<char>) -> bool {
    exists|k: nat| reach_within(apis, allow, n, k)
}

/// Whether the record `a` of `apis` survives pruning.
pub open spec fn survives(apis: Seq<Api>, allow: Seq<String>, a: Api) -> bool {
    reachable(apis, allow, a.name@)
}

/// The test that a record passes to survive pruning.
pub open spec fn survival(apis: Seq<Api>, allow: Seq<String>) -> spec_fn(Api) -> bool {
    |a: Api| survives(apis, allow, a)
}

/// The records that survive pruning, in their original order.
pub open spec fn survivors(apis: Seq<Api>, allow: Seq<String>) -> Seq<Api> {
    apis.filter(survival(apis, allow))
}

/// Number of `false` entries.
pub open spec fn unexpanded(s: Seq<bool>) -> nat
    decreases s.len(),
{
    if s.len() == 0 {
        0
    } else {
        unexpanded(s.drop_last()) + if s.last() {
            0nat
        } else {
            1nat
        }
    }
}

proof fn lemma_unexpanded_set(s: Seq<bool>, i: int)
    requires
        0 <= i < s.len(),
        !s[i],
    ensures
        unexpanded(s.update(i, true)) + 1 == unexpanded(s),
    decreases s.len(),
{
    let t = s.update(i, true);
    if i == s.len() - 1 {
        assert(t.drop_last() =~= s.drop_last());
    } else {
        assert(t.drop_last() =~= s.drop_last().update(i, true));
        lemma_unexpanded_set(s.drop_last(), i);
    }
}

proof fn lemma_reach_step(apis: Seq<Api>, allow: Seq<String>, i: int, d: Seq<char>)
    requires
        0 <= i < apis.len(),
        reachable(apis, allow, apis[i].name@),
        has_name(apis[i].deps@, d),
    ensures
        reachable(apis, allow, d),
{
    let k = choose|k: nat| reach_within(apis, allow, apis[i].name@, k);
    assert(reach_within(apis, allow, d, k + 1));
}

/// Every name in `seen` is reachable; the allowlist is in it; each record
/// marked expanded has its name and all its dependencies in it.
pub open spec fn walk_inv(apis: Seq<Api>, allow: Seq<String>, seen: Seq<String>, expanded: Seq<bool>) -> bool {
    &&& expanded.len() == apis.len()
    &&& forall|m: int| 0 <= m < seen.len() ==> reachable(apis, allow, #[trigger] seen[m]@)
    &&& forall|m: int| 0 <= m < allow.len() ==> has_name(seen, #[trigger] allow[m]@)
    &&& forall|i: int|
        0 <= i < apis.len() && #[trigger] expanded[i] ==> has_name(seen, apis[i].name@) && forall|j: int|
            0 <= j < apis[i].deps@.len() ==> has_name(seen, #[trigger] apis[i].deps@[j]@)
}

/// A closed set that holds the allowlist holds every reachable name.
proof fn lemma_closed_holds_reachable(apis: Seq<Api>, allow: Seq<String>, seen: Seq<String>, n: Seq<char>, k: nat)
    requires
        forall|m: int| 0 <= m < allow.len() ==> has_name(seen, #[trigger] allow[m]@),
        forall|i: int|
            0 <= i < apis.len() && has_name(seen, #[trigger] apis[i].name@) ==> forall|j: int|
                0 <= j < apis[i].deps@.len() ==> has_name(seen, #[trigger] apis[i].deps@[j]@),
        reach_within(apis, allow, n, k),
    ensures
        has_name(seen, n),
    decreases k,
{
    if k == 0 {
        let m = choose|m: int| 0 <= m < allow.len() && #[trigger] allow[m]@ == n;
        assert(has_name(seen, allow[m]@));
    } else if reach_within(apis, allow, n, (k - 1) as nat) {
        lemma_closed_holds_reachable(apis, allow, seen, n, (k - 1) as nat);
    } else {
        let i = choose|i: int|
            0 <= i < apis.len() && reach_within(apis, allow, #[trigger] apis[i].name@, (k - 1) as nat)
                && has_name(apis[i].deps@, n);
        lemma_closed_holds_reachable(apis, allow, seen, apis[i].name@, (k - 1) as nat);
        let j = choose|j: int| 0 <= j < apis[i].deps@.len() && #[trigger] apis[i].deps@[j]@ == n;
        assert(has_name(seen, apis[i].deps@[j]@));
    }
}

/// Expands record `i`: adds its dependencies to `seen`.
fn expand(apis: &Vec<Api>, Ghost(allow): Ghost<Seq<String>>, seen: &mut Vec<String>, expanded: &mut Vec<bool>, i: usize)
    requires
        walk_inv(apis@, allow, old(seen)@, old(expanded)@),
        i < apis@.len(),
        !old(expanded)@[i as int],
        has_name(old(seen)@, apis@[i as int].name@),
    ensures
        walk_inv(apis@, allow, final(seen)@, final(expanded)@),
        final(expanded)@ == old(expanded)@.update(i as int, true),
{
    let deps = &apis[i].deps;
    proof {
        let m = choose|m: int| 0 <= m < seen@.len() && #[trigger] seen@[m]@ == apis@[i as int].name@;
        assert(reachable(apis@, allow, seen@[m]@));
    }
    let mut j: usize = 0;
    while j < deps.len()
        invariant
            deps@ == apis@[i as int].deps@,
            i < apis@.len(),
            walk_inv(apis@, allow, seen@, expanded@),
            !expanded@[i as int],
            has_name(seen@, apis@[i as int].name@),
            reachable(apis@, allow, apis@[i as int].name@),
            j <= deps@.len(),
            forall|m: int| 0 <= m < j ==> has_name(seen@, #[trigger] deps@[m]@),
        decreases deps@.len() - j,
    {
        if !contains_name(seen, &deps[j]) {
            let d = deps[j].clone();
            proof {
                assert(has_name(apis@[i as int].deps@, d@));
                lemma_reach_step(apis@, allow, i as int, d@);
            }
            let ghost prev = seen@;
            seen.push(d);
            proof {
                assert forall|x: Seq<char>| has_name(prev, x) implies has_name(seen@, x) by {
                    let m = choose|m: int| 0 <= m < prev.len() && #[trigger] prev[m]@ == x;
                    assert(seen@[m]@ == x);
                }
                assert(seen@[prev.len() as int]@ == d@);
                assert(has_name(seen@, deps@[j as int]@));
            }
        }
        j = j + 1;
    }
    expanded.set(i, true);
}

/// Keeps the records whose names are reachable from the allowlist of `db`,
/// following each record's dependencies; drops the rest. The order of the
/// survivors is kept.
pub fn filter_apis_by_following_edges_from_allowlist(apis: Vec<Api>, db: &TypeDatabase) -> (r: Vec<Api>)
    ensures
        r@ == survivors(apis@, db.allowlist@),
{
    let ghost allow = db.allowlist@;
    let mut seen: Vec<String> = Vec::new();
    let mut m: usize = 0;
    while m < db.allowlist.len()
        invariant
            allow == db.allowlist@,
            m <= allow.len(),
            seen@.len() == m,
            forall|p: int| 0 <= p < m ==> #[trigger] seen@[p] == allow[p],
        decreases allow.len() - m,
    {
        seen.push(db.allowlist[m].clone());
        m = m + 1;
    }
    let mut expanded: Vec<bool> = Vec::new();
    let mut i: usize = 0;
    while i < apis.len()
        invariant
            i <= apis@.len(),
            expanded@.len() == i,
            forall|p: int| 0 <= p < i ==> !#[trigger] expanded@[p],
        decreases apis@.len() - i,
    {
        expanded.push(false);
        i = i + 1;
    }
    proof {
        assert forall|p: int| 0 <= p < seen@.len() implies reachable(apis@, allow, #[trigger] seen@[p]@) by {
            assert(has_name(allow, seen@[p]@));
            assert(reach_within(apis@, allow, seen@[p]@, 0));
        }
        assert forall|p: int| 0 <= p < allow.len() implies has_name(seen@, #[trigger] allow[p]@) by {
            assert(seen@[p]@ == allow[p]@);
        }
    }
    loop
        invariant
            walk_inv(apis@, allow, seen@, expanded@),
        ensures
            walk_inv(apis@, allow, seen@, expanded@),
            forall|p: int| 0 <= p < apis@.len() ==> expanded@[p] || !has_name(seen@, #[trigger] apis@[p].name@),
        decreases unexpanded(expanded@),
    {
        let ghost before = expanded@;
        let mut changed = false;
        let mut i: usize = 0;
        while i < apis.len()
            invariant
                walk_inv(apis@, allow, seen@, expanded@),
                i <= apis@.len(),
                changed ==> unexpanded(expanded@) < unexpanded(before),
                !changed ==> expanded@ == before,
                !changed ==> forall|p: int|
                    0 <= p < i ==> expanded@[p] || !has_name(seen@, #[trigger] apis@[p].name@),
            decreases apis@.len() - i,
        {
            if !expanded[i] && contains_name(&seen, &apis[i].name) {
                proof {
                    lemma_unexpanded_set(expanded@, i as int);
                }
                expand(&apis, Ghost(allow), &mut seen, &mut expanded, i);
                changed = true;
            }
            i = i + 1;
        }
        if !changed {
            break;
        }
    }
    proof {
        assert forall|i: int|
            0 <= i < apis@.len() && has_name(seen@, #[trigger] apis@[i].name@) implies forall|j: int|
                0 <= j < apis@[i].deps@.len() ==> has_name(seen@, #[trigger] apis@[i].deps@[j]@) by {
            assert(expanded@[i]);
        }
        assert forall|n: Seq<char>| reachable(apis@, allow, n) implies has_name(seen@, n) by {
            let k = choose|k: nat| reach_within(apis@, allow, n, k);
            lemma_closed_holds_reachable(apis@, allow, seen@, n, k);
        }
    }
    let total = apis.len();
    let ghost orig = apis@;
    let mut rest = apis;
    let mut kept: Vec<Api> = Vec::new();
    let mut p: usize = 0;
    while rest.len() > 0
        invariant
            walk_inv(orig, allow, seen@, expanded@),
            forall|n: Seq<char>| reachable(orig, allow, n) ==> has_name(seen@, n),
            p + rest@.len() == orig.len(),
            orig.len() == total,
            rest@ == orig.subrange(p as int, orig.len() as int),
            kept@ == orig.subrange(0, p as int).filter(survival(orig, allow)),
        decreases rest@.len(),
    {
        let a = rest.remove(0);
        let keep = contains_name(&seen, &a.name);
        let ghost prev = kept@;
        let ghost ga = a;
        proof {
            if keep {
                let m = choose|m: int| 0 <= m < seen@.len() && #[trigger] seen@[m]@ == a.name@;
                assert(reachable(orig, allow, seen@[m]@));
            }
            assert(rest@ =~= orig.subrange(p + 1, orig.len() as int));
        }
        if keep {
            kept.push(a);
        }
        proof {
            let s1 = orig.subrange(0, p + 1);
            reveal(Seq::filter);
            assert(s1.drop_last() =~= orig.subrange(0, p as int));
            assert(s1.last() == ga);
            assert(survival(orig, allow)(ga) == keep);
            assert(s1.filter(survival(orig, allow)) == if keep {
                prev.push(ga)
            } else {
                prev
            });
        }
        p = p + 1;
    }
    proof {
        assert(orig.subrange(0, orig.len() as int) =~= orig);
    }
    kept
}

proof fn lemma_reach_more_allowed(apis: Seq<Api>, allow: Seq<String>, allow2: Seq<String>, n: Seq<char>, k: nat)
    requires
        forall|x: Seq<char>| has_name(allow, x) ==> has_name(allow2, x),
        reach_within(apis, allow, n, k),
    ensures
        reach_within(apis, allow2, n, k),
    decreases k,
{
    if k > 0 {
        if reach_within(apis, allow, n, (k - 1) as nat) {
            lemma_reach_more_allowed(apis, allow, allow2, n, (k - 1) as nat);
        } else {
            let i = choose|i: int|
                0 <= i < apis.len() && reach_within(apis, allow, #[trigger] apis[i].name@, (k - 1) as nat)
                    && has_name(apis[i].deps@, n);
            lemma_reach_more_allowed(apis, allow, allow2, apis[i].name@, (k - 1) as nat);
        }
    }
}

/// Pruning is monotonic in the allowlist: a record that survives under
/// `allow` survives under any allowlist that holds every name of `allow`.
pub proof fn lemma_gc_monotonic(apis: Seq<Api>, allow: Seq<String>, allow2: Seq<String>)
    requires
        forall|x: Seq<char>| has_name(allow, x) ==> has_name(allow2, x),
    ensures
        forall|a: Api| survivors(apis, allow).contains(a) ==> survivors(apis, allow2).contains(a),
{
    reveal(Seq::filter);
    assert forall|a: Api| survivors(apis, allow).contains(a) implies survivors(apis, allow2).contains(a) by {
        apis.lemma_filter_contains_rev(survival(apis, allow), a);
        let k = choose|k: nat| reach_within(apis, allow, a.name@, k);
        lemma_reach_more_allowed(apis, allow, allow2, a.name@, k);
        let i = choose|i: int| 0 <= i < apis.len() && apis[i] == a;
        apis.lemma_filter_contains(survival(apis, allow2), i);
    }
}

/// Two lists of records describe the same graph when each record of one has
/// a record of the other with its name and the same set of dependencies.
pub open spec fn same_graph(a1: Seq<Api>, a2: Seq<Api>) -> bool {
    forall|i: int|
        0 <= i < a1.len() ==> exists|j: int|
            0 <= j < a2.len() && #[trigger] a2[j].name@ == #[trigger] a1[i].name@ && forall|x: Seq<char>|
                has_name(a1[i].deps@, x) == has_name(a2[j].deps@, x)
}

/// The names of the records that survive pruning.
pub open spec fn surviving_names(apis: Seq<Api>, allow: Seq<String>) -> Set<Seq<char>> {
    Set::new(|n: Seq<char>| exists|i: int| 0 <= i < apis.len() && #[trigger] apis[i].name@ == n && reachable(apis, allow, n))
}

proof fn lemma_reach_same_graph(
    a1: Seq<Api>,
    a2: Seq<Api>,
    allow1: Seq<String>,
    allow2: Seq<String>,
    n: Seq<char>,
    k: nat,
)
    requires
        same_graph(a1, a2),
        forall|x: Seq<char>| has_name(allow1, x) ==> has_name(allow2, x),
        reach_within(a1, allow1, n, k),
    ensures
        reach_within(a2, allow2, n, k),
    decreases k,
{
    if k > 0 {
        if reach_within(a1, allow1, n, (k - 1) as nat) {
            lemma_reach_same_graph(a1, a2, allow1, allow2, n, (k - 1) as nat);
        } else {
            let i = choose|i: int|
                0 <= i < a1.len() && reach_within(a1, allow1, #[trigger] a1[i].name@, (k - 1) as nat)
                    && has_name(a1[i].deps@, n);
            lemma_reach_same_graph(a1, a2, allow1, allow2, a1[i].name@, (k - 1) as nat);
            let j = choose|j: int|
                0 <= j < a2.len() && #[trigger] a2[j].name@ == a1[i].name@ && forall|x: Seq<char>|
                    has_name(a1[i].deps@, x) == has_name(a2[j].deps@, x);
            assert(has_name(a2[j].deps@, n));
            assert(reach_within(a2, allow2, a2[j].name@, (k - 1) as nat));
        }
    }
}

proof fn lemma_reachable_same_graph(a1: Seq<Api>, a2: Seq<Api>, allow1: Seq<String>, allow2: Seq<String>, n: Seq<char>)
    requires
        same_graph(a1, a2),
        same_graph(a2, a1),
        forall|x: Seq<char>| has_name(allow1, x) == has_name(allow2, x),
    ensures
        reachable(a1, allow1, n) == reachable(a2, allow2, n),
{
    if reachable(a1, allow1, n) {
        let k = choose|k: nat| reach_within(a1, allow1, n, k);
        lemma_reach_same_graph(a1, a2, allow1, allow2, n, k);
    }
    if reachable(a2, allow2, n) {
        let k = choose|k: nat| reach_within(a2, allow2, n, k);
        lemma_reach_same_graph(a2, a1, allow2, allow1, n, k);
    }
}

proof fn lemma_survivor_in_same_graph(a1: Seq<Api>, a2: Seq<Api>, allow1: Seq<String>, allow2: Seq<String>, n: Seq<char>)
    requires
        same_graph(a1, a2),
        same_graph(a2, a1),
        forall|x: Seq<char>| has_name(allow1, x) == has_name(allow2, x),
        surviving_names(a1, allow1).contains(n),
    ensures
        surviving_names(a2, allow2).contains(n),
{
    lemma_reachable_same_graph(a1, a2, allow1, allow2, n);
    let i = choose|i: int| 0 <= i < a1.len() && #[trigger] a1[i].name@ == n && reachable(a1, allow1, n);
    let j = choose|j: int|
        0 <= j < a2.len() && #[trigger] a2[j].name@ == a1[i].name@ && forall|x: Seq<char>|
            has_name(a1[i].deps@, x) == has_name(a2[j].deps@, x);
    assert(a2[j].name@ == n);
}

/// Pruning does not depend on the order of traversal: with the records in any
/// order, each with its dependencies in any order, and the allowlist in any
/// order, the same names are reachable and the same records survive.
pub proof fn lemma_gc_order_independent(a1: Seq<Api>, a2: Seq<Api>, allow1: Seq<String>, allow2: Seq<String>)
    requires
        same_graph(a1, a2),
        same_graph(a2, a1),
        forall|x: Seq<char>| has_name(allow1, x) == has_name(allow2, x),
    ensures
        forall|n: Seq<char>| reachable(a1, allow1, n) == reachable(a2, allow2, n),
        surviving_names(a1, allow1) == surviving_names(a2, allow2),
{
    assert forall|n: Seq<char>| reachable(a1, allow1, n) == reachable(a2, allow2, n) by {
        lemma_reachable_same_graph(a1, a2, allow1, allow2, n);
    }
    assert forall|n: Seq<char>| surviving_names(a1, allow1).contains(n) == surviving_names(a2, allow2).contains(n) by {
        if surviving_names(a1, allow1).contains(n) {
            lemma_survivor_in_same_graph(a1, a2, allow1, allow2, n);
        }
        if surviving_names(a2, allow2).contains(n) {
            lemma_survivor_in_same_graph(a2, a1, allow2, allow1, n);
        }
    }
    assert(surviving_names(a1, allow1) =~= surviving_names(a2, allow2));
}

} // verus!
