//! Turns declarations into API records.

use vstd::prelude::*;
use crate::api::{Api, ApiDetail, Passing};
use crate::safety::{classification, ByValueChecker, Safety};
use crate::types::{decl_name, ConstDecl, ConvertError, Decl, FnDecl, Param, StructDecl, TypeDatabase, UseDecl};

verus! {

/// Whether generated function wrappers need an unsafe-call annotation.
#[derive(PartialEq, Eq, Structural, Debug, Clone, Copy)]
pub enum UnsafePolicy {
    AllFunctionsSafe,
    AllFunctionsUnsafe,
    /// As each declaration is marked.
    PerFunctionMarked,
}

/// The namespace of the helper APIs that the "exclude utilities" mode leaves out.
pub const UTILITIES_PREFIX: &'static str = "utilities::";

/// Whether the name `n` lies in the helper namespace.
pub open spec fn is_utility(n: Seq<char>) -> bool {
    UTILITIES_PREFIX@.is_prefix_of(n)
}

/// Whether `s` begins with `p`.
pub fn starts_with(s: &str, p: &str) -> (r: bool)
    ensures
        r == p@.is_prefix_of(s@),
{
    let ls = s.unicode_len();
    let lp = p.unicode_len();
    if lp > ls {
        return false;
    }
    let mut i: usize = 0;
    while i < lp
        invariant
            lp == p@.len(),
            ls == s@.len(),
            lp <= ls,
            i <= lp,
            forall|j: int| 0 <= j < i ==> p@[j] == s@[j],
        decreases lp - i,
    {
        if p.get_char(i) != s.get_char(i) {
            return false;
        }
        i = i + 1;
    }
    proof {
        assert(p@ =~= s@.subrange(0, p@.len() as int));
    }
    true
}

/// The model of an API record's particulars.
pub enum DetailView {
    Type(Safety),
    Function(Seq<Passing>, Option<Passing>, bool),
    Const,
}

/// The model of an API record: name, particulars, names of dependencies.
pub struct ApiView {
    pub name: Seq<char>,
    pub detail: DetailView,
    pub deps: Seq<Seq<char>>,
}

impl Api {
    pub open spec fn view(&self) -> ApiView {
        ApiView {
            name: self.name@,
            detail: match self.detail {
                ApiDetail::Type { safety } => DetailView::Type(safety),
                ApiDetail::Function { params, ret, needs_unsafe } => DetailView::Function(params@, ret, needs_unsafe),
                ApiDetail::Const => DetailView::Const,
            },
            deps: self.deps@.map_values(|s: String| s@),
        }
    }
}

/// The models of a list of records.
pub open spec fn api_views(apis: Seq<Api>) -> Seq<ApiView> {
    apis.map_values(|a: Api| a@)
}

/// How a value of a type with safety `s` is passed.
pub open spec fn passing(s: Safety) -> Passing {
    if s == Safety::ByValueSafe {
        Passing::ByValue
    } else {
        Passing::ByReference
    }
}

/// Whether a function needs an unsafe-call annotation under `policy`.
pub open spec fn needs_unsafe(policy: UnsafePolicy, marked: bool) -> bool {
    match policy {
        UnsafePolicy::AllFunctionsSafe => false,
        UnsafePolicy::AllFunctionsUnsafe => true,
        UnsafePolicy::PerFunctionMarked => marked,
    }
}

/// The names of the types that a function mentions: its parameters', then
/// its result's.
pub open spec fn fn_deps(f: FnDecl) -> Seq<Seq<char>> {
    f.params@.map_values(|p: Param| p.ty@) + match f.ret {
        Some(t) => seq![t@],
        None => Seq::empty(),
    }
}

/// The record that a declaration becomes, if any; `ds` and `prims` are what
/// the classification is taken against.
pub open spec fn record_of(ds: Seq<Decl>, prims: Seq<String>, policy: UnsafePolicy, d: Decl) -> Option<ApiView> {
    match d {
        Decl::Struct(s) => Some(
            ApiView {
                name: s.name@,
                detail: DetailView::Type(classification(ds, prims, s.name@)),
                deps: s.fields@.map_values(|f: crate::types::Field| f.ty@),
            },
        ),
        Decl::Function(f) => Some(
            ApiView {
                name: f.name@,
                detail: DetailView::Function(
                    f.params@.map_values(|p: Param| passing(classification(ds, prims, p.ty@))),
                    match f.ret {
                        Some(t) => Some(passing(classification(ds, prims, t@))),
                        None => None,
                    },
                    needs_unsafe(policy, f.marked_unsafe),
                ),
                deps: fn_deps(f),
            },
        ),
        Decl::Const(c) => Some(ApiView { name: c.name@, detail: DetailView::Const, deps: seq![c.ty@] }),
        _ => None,
    }
}

/// Whether the parser handles `d` at all (under the exclusion mode `excl`).
pub open spec fn skipped(excl: bool, d: Decl) -> bool {
    excl && is_utility(decl_name(d))
}

/// The records that the declarations `items` become, in order.
pub open spec fn expected_records(
    ds: Seq<Decl>,
    prims: Seq<String>,
    policy: UnsafePolicy,
    excl: bool,
    items: Seq<Decl>,
) -> Seq<ApiView>
    decreases items.len(),
{
    if items.len() == 0 {
        Seq::empty()
    } else {
        let before = expected_records(ds, prims, policy, excl, items.drop_last());
        if skipped(excl, items.last()) {
            before
        } else {
            match record_of(ds, prims, policy, items.last()) {
                Some(v) => before.push(v),
                None => before,
            }
        }
    }
}

/// The import statements among `items`, in order.
pub open spec fn expected_uses(excl: bool, items: Seq<Decl>) -> Seq<UseDecl>
    decreases items.len(),
{
    if items.len() == 0 {
        Seq::empty()
    } else {
        let before = expected_uses(excl, items.drop_last());
        match items.last() {
            Decl::Use(u) => if skipped(excl, items.last()) {
                before
            } else {
                before.push(u)
            },
            _ => before,
        }
    }
}

/// `items[q]` is the first declaration that the parser handles and does not
/// recognise.
pub open spec fn first_unrecognized(excl: bool, items: Seq<Decl>, q: int) -> bool {
    &&& 0 <= q < items.len()
    &&& items[q] is Unsupported && !skipped(excl, items[q])
    &&& forall|p: int| 0 <= p < q ==> !(#[trigger] items[p] is Unsupported && !skipped(excl, items[p]))
}

/// The name of a declaration.
fn decl_name_of(d: &Decl) -> (r: &String)
    ensures
        r@ == decl_name(*d),
{
    match d {
        Decl::Struct(s) => &s.name,
        Decl::Function(f) => &f.name,
        Decl::Const(c) => &c.name,
        Decl::Use(u) => &u.path,
        Decl::Unsupported(n) => n,
    }
}

/// `e` reports the unrecognised declaration named `n`.
pub open spec fn is_unrecognized(e: ConvertError, n: Seq<char>) -> bool {
    match e {
        ConvertError::UnrecognizedDeclaration(m) => m@ == n,
        _ => false,
    }
}

/// What the parser produces: the records, and the import statements by the
/// namespace they stand in.
pub struct ParseResults {
    pub apis: Vec<Api>,
    pub use_stmts_by_mod: Vec<UseDecl>,
}

/// The parser, with what it consults.
pub struct ParseBindgen<'a> {
    pub byvalue_checker: ByValueChecker,
    pub type_database: &'a TypeDatabase,
    pub unsafe_policy: UnsafePolicy,
}

impl<'a> ParseBindgen<'a> {
    pub fn new(byvalue_checker: ByValueChecker, type_database: &'a TypeDatabase, unsafe_policy: UnsafePolicy) -> (r: Self)
        ensures
            r.byvalue_checker == byvalue_checker,
            r.type_database == type_database,
            r.unsafe_policy == unsafe_policy,
    {
        ParseBindgen { byvalue_checker, type_database, unsafe_policy }
    }

    fn passing_of(&self, ds: &Vec<Decl>, ty: &String) -> (r: Passing)
        requires
            self.byvalue_checker.wf(ds@, self.type_database.primitives@),
        ensures
            r == passing(classification(ds@, self.type_database.primitives@, ty@)),
    {
        if self.byvalue_checker.classify(ds, &self.type_database.primitives, ty) == Safety::ByValueSafe {
            Passing::ByValue
        } else {
            Passing::ByReference
        }
    }

    fn parse_struct(&self, ds: &Vec<Decl>, s: &StructDecl) -> (r: Api)
        requires
            self.byvalue_checker.wf(ds@, self.type_database.primitives@),
        ensures
            Some(r@) == record_of(ds@, self.type_database.primitives@, self.unsafe_policy, Decl::Struct(*s)),
    {
        let mut deps: Vec<String> = Vec::new();
        let mut j: usize = 0;
        while j < s.fields.len()
            invariant
                j <= s.fields@.len(),
                deps@.len() == j,
                forall|k: int| 0 <= k < j ==> #[trigger] deps@[k]@ == s.fields@[k].ty@,
            decreases s.fields@.len() - j,
        {
            deps.push(s.fields[j].ty.clone());
            j = j + 1;
        }
        proof {
            assert(deps@.map_values(|x: String| x@) =~= s.fields@.map_values(|f: crate::types::Field| f.ty@));
        }
        let safety = self.byvalue_checker.classify(ds, &self.type_database.primitives, &s.name);
        Api { name: s.name.clone(), detail: ApiDetail::Type { safety }, deps }
    }

    fn parse_fn(&self, ds: &Vec<Decl>, f: &FnDecl) -> (r: Api)
        requires
            self.byvalue_checker.wf(ds@, self.type_database.primitives@),
        ensures
            Some(r@) == record_of(ds@, self.type_database.primitives@, self.unsafe_policy, Decl::Function(*f)),
    {
        let ghost prims = self.type_database.primitives@;
        let mut deps: Vec<String> = Vec::new();
        let mut params: Vec<Passing> = Vec::new();
        let mut j: usize = 0;
        while j < f.params.len()
            invariant
                self.byvalue_checker.wf(ds@, prims),
                prims == self.type_database.primitives@,
                j <= f.params@.len(),
                deps@.len() == j,
                forall|k: int| 0 <= k < j ==> #[trigger] deps@[k]@ == f.params@[k].ty@,
                params@ =~= f.params@.subrange(0, j as int).map_values(
                    |p: Param| passing(classification(ds@, prims, p.ty@)),
                ),
            decreases f.params@.len() - j,
        {
            let ty = &f.params[j].ty;
            let pass = self.passing_of(ds, ty);
            deps.push(ty.clone());
            params.push(pass);
            j = j + 1;
        }
        proof {
            assert(f.params@.subrange(0, f.params@.len() as int) =~= f.params@);
            assert(deps@.map_values(|x: String| x@) =~= f.params@.map_values(|p: Param| p.ty@));
        }
        let ret = match &f.ret {
            Some(t) => {
                let pass = self.passing_of(ds, t);
                deps.push(t.clone());
                Some(pass)
            },
            None => None,
        };
        proof {
            assert(deps@.map_values(|x: String| x@) =~= fn_deps(*f));
        }
        let needs_unsafe = match self.unsafe_policy {
            UnsafePolicy::AllFunctionsSafe => false,
            UnsafePolicy::AllFunctionsUnsafe => true,
            UnsafePolicy::PerFunctionMarked => f.marked_unsafe,
        };
        Api { name: f.name.clone(), detail: ApiDetail::Function { params, ret, needs_unsafe }, deps }
    }

    fn parse_const(&self, ds: &Vec<Decl>, c: &ConstDecl) -> (r: Api)
        ensures
            Some(r@) == record_of(ds@, self.type_database.primitives@, self.unsafe_policy, Decl::Const(*c)),
    {
        let mut deps: Vec<String> = Vec::new();
        deps.push(c.ty.clone());
        proof {
            assert(deps@.map_values(|x: String| x@) =~= seq![c.ty@]);
        }
        Api { name: c.name.clone(), detail: ApiDetail::Const, deps }
    }

    /// Turns `items` into API records and collects their import statements.
    /// Stops at the first declaration of a shape it does not handle. Where
    /// `exclude_utilities` holds, declarations in the helper namespace are
    /// left out altogether.
    pub fn convert_items(self, items: Vec<Decl>, exclude_utilities: bool) -> (r: Result<ParseResults, ConvertError>)
        requires
            self.byvalue_checker.wf(items@, self.type_database.primitives@),
        ensures
            r is Ok <==> forall|q: int| 0 <= q < items@.len() ==> !(#[trigger] items@[q] is Unsupported && !skipped(exclude_utilities, items@[q])),
            match r {
                Ok(res) => {
                    &&& api_views(res.apis@) == expected_records(
                        items@,
                        self.type_database.primitives@,
                        self.unsafe_policy,
                        exclude_utilities,
                        items@,
                    )
                    &&& res.use_stmts_by_mod@ == expected_uses(exclude_utilities, items@)
                },
                Err(e) => exists|q: int|
                    first_unrecognized(exclude_utilities, items@, q) && is_unrecognized(e, decl_name(#[trigger] items@[q])),
            },
    {
        let ghost prims = self.type_database.primitives@;
        let ghost all = items@;
        let mut apis: Vec<Api> = Vec::new();
        let mut uses: Vec<UseDecl> = Vec::new();
        let mut i: usize = 0;
        while i < items.len()
            invariant
                all == items@,
                prims == self.type_database.primitives@,
                self.byvalue_checker.wf(all, prims),
                i <= all.len(),
                forall|q: int| 0 <= q < i ==> !(#[trigger] all[q] is Unsupported && !skipped(exclude_utilities, all[q])),
                api_views(apis@) == expected_records(all, prims, self.unsafe_policy, exclude_utilities, all.subrange(0, i as int)),
                uses@ == expected_uses(exclude_utilities, all.subrange(0, i as int)),
            decreases all.len() - i,
        {
            let d = &items[i];
            let name = decl_name_of(d);
            let skip = exclude_utilities && starts_with(name.as_str(), UTILITIES_PREFIX);
            let ghost prev_apis = apis@;
            let ghost prev_uses = uses@;
            proof {
                let s1 = all.subrange(0, i + 1);
                assert(s1.drop_last() =~= all.subrange(0, i as int));
                assert(s1.last() == *d);
                assert(skip == skipped(exclude_utilities, *d));
            }
            if !skip {
                match d {
                    Decl::Struct(s) => {
                        let a = self.parse_struct(&items, s);
                        apis.push(a);
                    },
                    Decl::Function(f) => {
                        let a = self.parse_fn(&items, f);
                        apis.push(a);
                    },
                    Decl::Const(c) => {
                        let a = self.parse_const(&items, c);
                        apis.push(a);
                    },
                    Decl::Use(u) => {
                        uses.push(UseDecl { namespace: u.namespace.clone(), path: u.path.clone() });
                    },
                    Decl::Unsupported(n) => {
                        let e = ConvertError::UnrecognizedDeclaration(n.clone());
                        proof {
                            assert(first_unrecognized(exclude_utilities, all, i as int));
                        }
                        return Err(e);
                    },
                }
            }
            proof {
                assert(api_views(apis@) =~= if apis@.len() == prev_apis.len() {
                    api_views(prev_apis)
                } else {
                    api_views(prev_apis).push(apis@.last()@)
                });
            }
            i = i + 1;
        }
        proof {
            assert(all.subrange(0, all.len() as int) =~= all);
        }
        Ok(ParseResults { apis, use_stmts_by_mod: uses })
    }
}

} // verus!
