//! Decides which aggregate types are safe to pass by value.
//!
//! A type is safe when it is a primitive, or an aggregate that is trivially
//! copyable and whose field types are all safe. The classification is the
//! least such assignment: an aggregate on a dependency cycle is never safe.

use vstd::prelude::*;
use crate::types::{contains_name, has_name, ConvertError, Decl, Field, TypeDatabase};

verus! {

/// How a type may be passed.
#[derive(PartialEq, Eq, Structural, Debug, Clone, Copy)]
pub enum Safety {
    ByValueSafe,
    NotSafe,
    Unknown,
}

/// Whether `d` declares an aggregate named `n`.
pub open spec fn is_struct_named(d: Decl, n: Seq<char>) -> bool {
    match d {
        Decl::Struct(s) => s.name@ == n,
        _ => false,
    }
}

/// The fields of an aggregate declaration; none for other declarations.
pub open spec fn struct_fields(d: Decl) -> Seq<Field> {
    match d {
        Decl::Struct(s) => s.fields@,
        _ => Seq::empty(),
    }
}

/// Whether `d` is a trivially copyable aggregate.
pub open spec fn struct_trivial(d: Decl) -> bool {
    match d {
        Decl::Struct(s) => s.trivially_copyable,
        _ => false,
    }
}

/// Index of the first aggregate named `n` at or after `i`, or -1.
pub open spec fn find_struct_from(ds: Seq<Decl>, n: Seq<char>, i: int) -> int
    decreases ds.len() - i,
{
    if i < 0 || i >= ds.len() {
        -1
    } else if is_struct_named(ds[i], n) {
        i
    } else {
        find_struct_from(ds, n, i + 1)
    }
}

/// Index of the aggregate that the name `n` refers to, or -1.
pub open spec fn find_struct(ds: Seq<Decl>, n: Seq<char>) -> int {
    find_struct_from(ds, n, 0)
}

/// The type named `n` is shown safe by a derivation of depth at most `k`.
pub open spec fn type_safe(ds: Seq<Decl>, prims: Seq<String>, n: Seq<char>, k: nat) -> bool
    decreases k,
{
    if k == 0 {
        false
    } else {
        let i = find_struct(ds, n);
        if i >= 0 {
            struct_trivial(ds[i]) && forall|j: int|
                0 <= j < struct_fields(ds[i]).len() ==> type_safe(
                    ds,
                    prims,
                    #[trigger] struct_fields(ds[i])[j].ty@,
                    (k - 1) as nat,
                )
        } else {
            has_name(prims, n)
        }
    }
}

/// The declaration at `i` is an aggregate shown safe at depth at most `k`.
pub open spec fn node_safe(ds: Seq<Decl>, prims: Seq<String>, i: int, k: nat) -> bool {
    k > 0 && ds[i] is Struct && struct_trivial(ds[i]) && forall|j: int|
        0 <= j < struct_fields(ds[i]).len() ==> type_safe(
            ds,
            prims,
            #[trigger] struct_fields(ds[i])[j].ty@,
            (k - 1) as nat,
        )
}

/// A depth that every derivation fits in: each aggregate occurs at most once
/// on a path of one, and a primitive ends it.
pub open spec fn safety_depth(ds: Seq<Decl>) -> nat {
    ds.len() + 1
}

/// The classification of the type named `n`.
pub open spec fn classification(ds: Seq<Decl>, prims: Seq<String>, n: Seq<char>) -> Safety {
    if find_struct(ds, n) >= 0 {
        if type_safe(ds, prims, n, safety_depth(ds)) {
            Safety::ByValueSafe
        } else {
            Safety::NotSafe
        }
    } else if has_name(prims, n) {
        Safety::ByValueSafe
    } else {
        Safety::Unknown
    }
}

/// Whether every name in `reqs` is classified safe to pass by value.
pub open spec fn all_requests_safe(ds: Seq<Decl>, prims: Seq<String>, reqs: Seq<String>) -> bool {
    forall|q: int| 0 <= q < reqs.len() ==> classification(ds, prims, #[trigger] reqs[q]@) == Safety::ByValueSafe
}

/// `reqs[q]` is the first request that is not safe to pass by value.
pub open spec fn first_rejected(ds: Seq<Decl>, prims: Seq<String>, reqs: Seq<String>, q: int) -> bool {
    &&& 0 <= q < reqs.len()
    &&& classification(ds, prims, reqs[q]@) != Safety::ByValueSafe
    &&& forall|p: int| 0 <= p < q ==> classification(ds, prims, #[trigger] reqs[p]@) == Safety::ByValueSafe
}

proof fn lemma_find_struct_from(ds: Seq<Decl>, n: Seq<char>, i: int)
    requires
        0 <= i,
    ensures
        find_struct_from(ds, n, i) == -1 || (i <= find_struct_from(ds, n, i) < ds.len()
            && is_struct_named(ds[find_struct_from(ds, n, i)], n)),
    decreases ds.len() - i,
{
    if i < ds.len() && !is_struct_named(ds[i], n) {
        lemma_find_struct_from(ds, n, i + 1);
    }
}

/// Where `n` names an aggregate, its safety is that of the declaration found.
proof fn lemma_type_safe_struct(ds: Seq<Decl>, prims: Seq<String>, n: Seq<char>, k: nat)
    ensures
        find_struct(ds, n) == -1 || (0 <= find_struct(ds, n) < ds.len() && ds[find_struct(ds, n)] is Struct),
        find_struct(ds, n) >= 0 ==> type_safe(ds, prims, n, k) == node_safe(ds, prims, find_struct(ds, n), k),
        find_struct(ds, n) < 0 ==> type_safe(ds, prims, n, k) == (k > 0 && has_name(prims, n)),
{
    lemma_find_struct_from(ds, n, 0);
}

/// Returns the index of the aggregate that `n` refers to.
fn find_struct_index(ds: &Vec<Decl>, n: &String) -> (r: Option<usize>)
    ensures
        match r {
            Some(i) => i as int == find_struct(ds@, n@),
            None => find_struct(ds@, n@) == -1,
        },
{
    let mut i: usize = 0;
    while i < ds.len()
        invariant
            i <= ds@.len(),
            find_struct(ds@, n@) == find_struct_from(ds@, n@, i as int),
        decreases ds@.len() - i,
    {
        match &ds[i] {
            Decl::Struct(s) => {
                if s.name == *n {
                    return Some(i);
                }
            },
            _ => {},
        }
        i = i + 1;
    }
    None
}

/// The result of the analysis: for each declaration, whether it is an
/// aggregate that is safe to pass by value.
pub struct ByValueChecker {
    pub safe: Vec<bool>,
}

impl ByValueChecker {
    /// The table is the analysis of `ds` against the primitives `prims`.
    pub open spec fn wf(&self, ds: Seq<Decl>, prims: Seq<String>) -> bool {
        &&& self.safe@.len() == ds.len()
        &&& forall|i: int| 0 <= i < ds.len() ==> #[trigger] self.safe@[i] == node_safe(ds, prims, i, safety_depth(ds))
    }

    /// Returns the position of the first name in `reqs` that is not safe to
    /// pass by value.
    pub fn first_unsafe_request(&self, ds: &Vec<Decl>, prims: &Vec<String>, reqs: &Vec<String>) -> (r: Option<usize>)
        requires
            self.wf(ds@, prims@),
        ensures
            r is None <==> all_requests_safe(ds@, prims@, reqs@),
            match r {
                Some(q) => first_rejected(ds@, prims@, reqs@, q as int),
                None => true,
            },
    {
        let mut q: usize = 0;
        while q < reqs.len()
            invariant
                self.wf(ds@, prims@),
                q <= reqs@.len(),
                forall|p: int| 0 <= p < q ==> classification(ds@, prims@, #[trigger] reqs@[p]@) == Safety::ByValueSafe,
            decreases reqs@.len() - q,
        {
            if self.classify(ds, prims, &reqs[q]) != Safety::ByValueSafe {
                return Some(q);
            }
            q = q + 1;
        }
        None
    }

    /// Classifies the type named `n`.
    pub fn classify(&self, ds: &Vec<Decl>, prims: &Vec<String>, n: &String) -> (r: Safety)
        requires
            self.wf(ds@, prims@),
        ensures
            r == classification(ds@, prims@, n@),
    {
        proof {
            lemma_type_safe_struct(ds@, prims@, n@, safety_depth(ds@));
        }
        match find_struct_index(ds, n) {
            Some(i) => {
                if self.safe[i] {
                    Safety::ByValueSafe
                } else {
                    Safety::NotSafe
                }
            },
            None => {
                if contains_name(prims, n) {
                    Safety::ByValueSafe
                } else {
                    Safety::Unknown
                }
            },
        }
    }
}

/// Whether a field type is shown safe at depth `k`, from the table of depth `k`.
fn field_type_safe(
    ds: &Vec<Decl>,
    prims: &Vec<String>,
    table: &Vec<bool>,
    ty: &String,
    started: bool,
    Ghost(k): Ghost<nat>,
) -> (r: bool)
    requires
        table@.len() == ds@.len(),
        forall|i: int| 0 <= i < ds@.len() ==> #[trigger] table@[i] == node_safe(ds@, prims@, i, k),
        started == (k > 0),
    ensures
        r == type_safe(ds@, prims@, ty@, k),
{
    proof {
        lemma_type_safe_struct(ds@, prims@, ty@, k);
    }
    match find_struct_index(ds, ty) {
        Some(i) => table[i],
        None => started && contains_name(prims, ty),
    }
}

/// One round of propagation: from the table of depth `k` to that of `k + 1`.
fn propagate(ds: &Vec<Decl>, prims: &Vec<String>, table: &Vec<bool>, started: bool, Ghost(k): Ghost<nat>) -> (r: Vec<bool>)
    requires
        table@.len() == ds@.len(),
        forall|i: int| 0 <= i < ds@.len() ==> #[trigger] table@[i] == node_safe(ds@, prims@, i, k),
        started == (k > 0),
    ensures
        r@.len() == ds@.len(),
        forall|i: int| 0 <= i < ds@.len() ==> #[trigger] r@[i] == node_safe(ds@, prims@, i, k + 1),
{
    let mut next: Vec<bool> = Vec::new();
    let mut i: usize = 0;
    while i < ds.len()
        invariant
            i <= ds@.len(),
            next@.len() == i,
            table@.len() == ds@.len(),
            forall|i: int| 0 <= i < ds@.len() ==> #[trigger] table@[i] == node_safe(ds@, prims@, i, k),
            started == (k > 0),
            forall|m: int| 0 <= m < i ==> #[trigger] next@[m] == node_safe(ds@, prims@, m, k + 1),
        decreases ds@.len() - i,
    {
        let ok = match &ds[i] {
            Decl::Struct(s) => {
                let mut all = s.trivially_copyable;
                let mut j: usize = 0;
                while j < s.fields.len()
                    invariant
                        ds@[i as int] == Decl::Struct(*s),
                        j <= s.fields@.len(),
                        table@.len() == ds@.len(),
                        forall|i: int| 0 <= i < ds@.len() ==> #[trigger] table@[i] == node_safe(ds@, prims@, i, k),
                        started == (k > 0),
                        all == (s.trivially_copyable && forall|m: int|
                            0 <= m < j ==> type_safe(ds@, prims@, #[trigger] s.fields@[m].ty@, k)),
                    decreases s.fields@.len() - j,
                {
                    let f = field_type_safe(ds, prims, table, &s.fields[j].ty, started, Ghost(k));
                    all = all && f;
                    j = j + 1;
                }
                proof {
                    assert(struct_fields(ds@[i as int]) == s.fields@);
                }
                all
            },
            _ => false,
        };
        next.push(ok);
        i = i + 1;
    }
    next
}

/// Classifies every aggregate of `ds`, and fails with `SafetyViolation` on
/// the first type that the user asked to pass by value where that is unsafe.
pub fn identify_byvalue_safe_types(ds: &Vec<Decl>, db: &TypeDatabase) -> (r: Result<ByValueChecker, ConvertError>)
    ensures
        r is Ok <==> all_requests_safe(ds@, db.primitives@, db.pod_requests@),
        match r {
            Ok(c) => c.wf(ds@, db.primitives@),
            Err(e) => exists|q: int|
                first_rejected(ds@, db.primitives@, db.pod_requests@, q)
                    && e == ConvertError::SafetyViolation(#[trigger] db.pod_requests@[q]),
        },
{
    let prims = &db.primitives;
    let mut table: Vec<bool> = Vec::new();
    let mut i: usize = 0;
    while i < ds.len()
        invariant
            i <= ds@.len(),
            table@.len() == i,
            forall|m: int| 0 <= m < i ==> #[trigger] table@[m] == node_safe(ds@, prims@, m, 0),
        decreases ds@.len() - i,
    {
        table.push(false);
        i = i + 1;
    }
    let mut table = propagate(ds, prims, &table, false, Ghost(0));
    let mut round: usize = 0;
    while round < ds.len()
        invariant
            round <= ds@.len(),
            table@.len() == ds@.len(),
            forall|m: int| 0 <= m < ds@.len() ==> #[trigger] table@[m] == node_safe(ds@, prims@, m, (round + 1) as nat),
        decreases ds@.len() - round,
    {
        table = propagate(ds, prims, &table, true, Ghost((round + 1) as nat));
        round = round + 1;
    }
    let checker = ByValueChecker { safe: table };
    match checker.first_unsafe_request(ds, prims, &db.pod_requests) {
        Some(q) => {
            let name = db.pod_requests[q].clone();
            Err(ConvertError::SafetyViolation(name))
        },
        None => Ok(checker),
    }
}

/// Every name in `cyc` names an aggregate with a field whose type is again in
/// `cyc`: the names form (or lead round) a dependency cycle.
pub open spec fn closed_under_fields(ds: Seq<Decl>, cyc: Set<Seq<char>>) -> bool {
    forall|n: Seq<char>| #[trigger] cyc.contains(n) ==> {
        &&& find_struct(ds, n) >= 0
        &&& exists|j: int|
            0 <= j < struct_fields(ds[find_struct(ds, n)]).len() && cyc.contains(
                #[trigger] struct_fields(ds[find_struct(ds, n)])[j].ty@,
            )
    }
}

proof fn lemma_cycle_never_safe(ds: Seq<Decl>, prims: Seq<String>, cyc: Set<Seq<char>>, k: nat)
    requires
        closed_under_fields(ds, cyc),
    ensures
        forall|n: Seq<char>| #[trigger] cyc.contains(n) ==> !type_safe(ds, prims, n, k),
    decreases k,
{
    if k > 0 {
        lemma_cycle_never_safe(ds, prims, cyc, (k - 1) as nat);
        assert forall|n: Seq<char>| #[trigger] cyc.contains(n) implies !type_safe(ds, prims, n, k) by {
            let i = find_struct(ds, n);
            let j = choose|j: int|
                0 <= j < struct_fields(ds[i]).len() && cyc.contains(#[trigger] struct_fields(ds[i])[j].ty@);
            assert(!type_safe(ds, prims, struct_fields(ds[i])[j].ty@, (k - 1) as nat));
        }
    }
}

/// No aggregate on a dependency cycle is safe to pass by value: each one of
/// them is classified `NotSafe`.
pub proof fn lemma_cycle_not_safe(ds: Seq<Decl>, prims: Seq<String>, cyc: Set<Seq<char>>)
    requires
        closed_under_fields(ds, cyc),
    ensures
        forall|n: Seq<char>| #[trigger] cyc.contains(n) ==> classification(ds, prims, n) == Safety::NotSafe,
{
    lemma_cycle_never_safe(ds, prims, cyc, safety_depth(ds));
}

/// Where aggregate `a` has a field of type `b` and `b` one of type `a` (the
/// two may be the same type), both are classified `NotSafe`.
pub proof fn lemma_mutual_dependency_not_safe(
    ds: Seq<Decl>,
    prims: Seq<String>,
    a: Seq<char>,
    b: Seq<char>,
    ja: int,
    jb: int,
)
    requires
        find_struct(ds, a) >= 0,
        find_struct(ds, b) >= 0,
        0 <= ja < struct_fields(ds[find_struct(ds, a)]).len(),
        0 <= jb < struct_fields(ds[find_struct(ds, b)]).len(),
        struct_fields(ds[find_struct(ds, a)])[ja].ty@ == b,
        struct_fields(ds[find_struct(ds, b)])[jb].ty@ == a,
    ensures
        classification(ds, prims, a) == Safety::NotSafe,
        classification(ds, prims, b) == Safety::NotSafe,
{
    let cyc = set![a, b];
    assert(closed_under_fields(ds, cyc));
    lemma_cycle_not_safe(ds, prims, cyc);
    assert(cyc.contains(a) && cyc.contains(b));
}

proof fn lemma_type_safe_monotone(ds: Seq<Decl>, prims: Seq<String>, n: Seq<char>, k: nat)
    ensures
        type_safe(ds, prims, n, k) ==> type_safe(ds, prims, n, k + 1),
    decreases k,
{
    if k > 0 && type_safe(ds, prims, n, k) {
        let i = find_struct(ds, n);
        if i >= 0 {
            assert forall|j: int| 0 <= j < struct_fields(ds[i]).len() implies type_safe(
                ds,
                prims,
                #[trigger] struct_fields(ds[i])[j].ty@,
                k,
            ) by {
                lemma_type_safe_monotone(ds, prims, struct_fields(ds[i])[j].ty@, (k - 1) as nat);
            }
        }
    }
}

proof fn lemma_node_safe_monotone(ds: Seq<Decl>, prims: Seq<String>, i: int, k: nat)
    ensures
        node_safe(ds, prims, i, k) ==> node_safe(ds, prims, i, k + 1),
{
    if node_safe(ds, prims, i, k) {
        assert forall|j: int| 0 <= j < struct_fields(ds[i]).len() implies type_safe(
            ds,
            prims,
            #[trigger] struct_fields(ds[i])[j].ty@,
            k,
        ) by {
            lemma_type_safe_monotone(ds, prims, struct_fields(ds[i])[j].ty@, (k - 1) as nat);
        }
    }
}

/// The tables of depth `k` and `k + 1` agree.
pub open spec fn stable_at(ds: Seq<Decl>, prims: Seq<String>, k: nat) -> bool {
    forall|i: int| 0 <= i < ds.len() ==> #[trigger] node_safe(ds, prims, i, k) == node_safe(ds, prims, i, k + 1)
}

proof fn lemma_stable_propagates(ds: Seq<Decl>, prims: Seq<String>, k: nat)
    requires
        k >= 1,
        stable_at(ds, prims, k),
    ensures
        stable_at(ds, prims, k + 1),
{
    assert forall|n: Seq<char>| #[trigger] type_safe(ds, prims, n, k) == type_safe(ds, prims, n, k + 1) by {
        lemma_type_safe_struct(ds, prims, n, k);
        lemma_type_safe_struct(ds, prims, n, k + 1);
    }
    assert forall|i: int| 0 <= i < ds.len() implies #[trigger] node_safe(ds, prims, i, k + 1) == node_safe(
        ds,
        prims,
        i,
        k + 2,
    ) by {
        assert forall|j: int| 0 <= j < struct_fields(ds[i]).len() implies type_safe(
            ds,
            prims,
            #[trigger] struct_fields(ds[i])[j].ty@,
            k,
        ) == type_safe(ds, prims, struct_fields(ds[i])[j].ty@, k + 1) by {}
    }
}

/// Number of declarations before `m` shown safe at depth `k`.
spec fn count_safe(ds: Seq<Decl>, prims: Seq<String>, k: nat, m: int) -> nat
    decreases m,
{
    if m <= 0 {
        0
    } else {
        count_safe(ds, prims, k, m - 1) + if node_safe(ds, prims, m - 1, k) {
            1nat
        } else {
            0nat
        }
    }
}

proof fn lemma_count_grows(ds: Seq<Decl>, prims: Seq<String>, k: nat, m: int)
    requires
        0 <= m <= ds.len(),
    ensures
        count_safe(ds, prims, k, m) <= count_safe(ds, prims, k + 1, m),
        count_safe(ds, prims, k + 1, m) <= m,
        (exists|i: int| 0 <= i < m && #[trigger] node_safe(ds, prims, i, k) != node_safe(ds, prims, i, k + 1))
            ==> count_safe(ds, prims, k, m) < count_safe(ds, prims, k + 1, m),
    decreases m,
{
    if m > 0 {
        lemma_count_grows(ds, prims, k, m - 1);
        lemma_node_safe_monotone(ds, prims, m - 1, k);
        if exists|i: int| 0 <= i < m && #[trigger] node_safe(ds, prims, i, k) != node_safe(ds, prims, i, k + 1) {
            let i = choose|i: int| 0 <= i < m && #[trigger] node_safe(ds, prims, i, k) != node_safe(ds, prims, i, k + 1);
            if i < m - 1 {
                assert(exists|i: int| 0 <= i < m - 1 && #[trigger] node_safe(ds, prims, i, k) != node_safe(ds, prims, i, k + 1));
            }
        }
    }
}

/// Until the tables stop changing, each round shows one more aggregate safe.
proof fn lemma_progress(ds: Seq<Decl>, prims: Seq<String>, k: nat)
    requires
        k >= 1,
    ensures
        stable_at(ds, prims, k) || count_safe(ds, prims, k + 1, ds.len() as int) >= k,
    decreases k,
{
    let len = ds.len() as int;
    lemma_count_grows(ds, prims, k, len);
    if !stable_at(ds, prims, k) {
        let i = choose|i: int| 0 <= i < ds.len() && #[trigger] node_safe(ds, prims, i, k) != node_safe(ds, prims, i, k + 1);
        assert(exists|i: int| 0 <= i < len && #[trigger] node_safe(ds, prims, i, k) != node_safe(ds, prims, i, k + 1));
        if k > 1 {
            lemma_progress(ds, prims, (k - 1) as nat);
            if stable_at(ds, prims, (k - 1) as nat) {
                lemma_stable_propagates(ds, prims, (k - 1) as nat);
            }
        }
    }
}

/// The classification is a fixed point of propagation: one more round over
/// the computed table changes no entry, and no type's safety.
pub proof fn lemma_classification_fixed_point(ds: Seq<Decl>, prims: Seq<String>)
    ensures
        forall|i: int|
            0 <= i < ds.len() ==> #[trigger] node_safe(ds, prims, i, safety_depth(ds) + 1) == node_safe(
                ds,
                prims,
                i,
                safety_depth(ds),
            ),
        forall|n: Seq<char>|
            #[trigger] type_safe(ds, prims, n, safety_depth(ds) + 1) == type_safe(ds, prims, n, safety_depth(ds)),
{
    let d = safety_depth(ds);
    lemma_progress(ds, prims, d);
    lemma_count_grows(ds, prims, d, ds.len() as int);
    assert(stable_at(ds, prims, d));
    assert forall|n: Seq<char>| #[trigger] type_safe(ds, prims, n, d + 1) == type_safe(ds, prims, n, d) by {
        lemma_type_safe_struct(ds, prims, n, d);
        lemma_type_safe_struct(ds, prims, n, d + 1);
    }
}

proof fn lemma_safe_means_shown_safe(ds: Seq<Decl>, prims: Seq<String>, n: Seq<char>)
    ensures
        (classification(ds, prims, n) == Safety::ByValueSafe) == type_safe(ds, prims, n, safety_depth(ds)),
{
    lemma_type_safe_struct(ds, prims, n, safety_depth(ds));
}

/// An aggregate is classified safe to pass by value exactly when it is
/// trivially copyable and the type of each of its fields is classified safe.
pub proof fn lemma_safe_iff_fields_safe(ds: Seq<Decl>, prims: Seq<String>, n: Seq<char>)
    requires
        find_struct(ds, n) >= 0,
    ensures
        (classification(ds, prims, n) == Safety::ByValueSafe) == (struct_trivial(ds[find_struct(ds, n)])
            && forall|j: int|
            0 <= j < struct_fields(ds[find_struct(ds, n)]).len() ==> classification(
                ds,
                prims,
                #[trigger] struct_fields(ds[find_struct(ds, n)])[j].ty@,
            ) == Safety::ByValueSafe),
{
    let d = safety_depth(ds);
    let i = find_struct(ds, n);
    lemma_classification_fixed_point(ds, prims);
    assert(type_safe(ds, prims, n, d + 1) == type_safe(ds, prims, n, d));
    assert forall|j: int| 0 <= j < struct_fields(ds[i]).len() implies (classification(
        ds,
        prims,
        #[trigger] struct_fields(ds[i])[j].ty@,
    ) == Safety::ByValueSafe) == type_safe(ds, prims, struct_fields(ds[i])[j].ty@, d) by {
        lemma_safe_means_shown_safe(ds, prims, struct_fields(ds[i])[j].ty@);
    }
}

/// Analysing again while asking by value only for types that an analysis
/// found safe succeeds, and gives the same table: the table depends on the
/// declarations and primitives alone.
pub proof fn lemma_reanalysis_idempotent(
    ds: Seq<Decl>,
    prims: Seq<String>,
    first: ByValueChecker,
    reqs: Seq<String>,
    again: ByValueChecker,
)
    requires
        first.wf(ds, prims),
        forall|q: int| 0 <= q < reqs.len() ==> classification(ds, prims, #[trigger] reqs[q]@) == Safety::ByValueSafe,
        again.wf(ds, prims),
    ensures
        all_requests_safe(ds, prims, reqs),
        again.safe@ == first.safe@,
{
    assert(again.safe@ =~= first.safe@);
}

} // verus!
