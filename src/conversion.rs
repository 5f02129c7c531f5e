//! The whole conversion: extraction, by-value analysis, parsing, pruning.

use vstd::prelude::*;
use crate::api::Api;
use crate::extract::{extraction, find_items_in_root};
use crate::gc::{filter_apis_by_following_edges_from_allowlist, survivors};
use crate::parse::{
    api_views, expected_records, expected_uses, first_unrecognized, is_unrecognized, skipped, ParseBindgen,
    UnsafePolicy,
};
use crate::safety::{all_requests_safe, first_rejected, identify_byvalue_safe_types};
use crate::types::{decl_name, ConvertError, Decl, Item, ItemMod, TypeDatabase, UseDecl};

verus! {

/// What the conversion hands to code generation: the surviving records, the
/// headers to include, and the import statements by namespace.
pub struct ConversionResults {
    pub apis: Vec<Api>,
    pub include_list: Vec<String>,
    pub use_stmts_by_mod: Vec<UseDecl>,
}

/// Whether some declaration of `ds` is one the parser handles and does not recognise.
pub open spec fn has_unrecognized(excl: bool, ds: Seq<Decl>) -> bool {
    exists|q: int| 0 <= q < ds.len() && #[trigger] ds[q] is Unsupported && !skipped(excl, ds[q])
}

/// `r` is what converting the outer nodes `items` gives under the database
/// `db`, the header list `includes`, the exclusion mode `excl` and `policy`.
pub open spec fn converted(
    db: TypeDatabase,
    includes: Seq<String>,
    items: Seq<Item>,
    excl: bool,
    policy: UnsafePolicy,
    r: Result<ConversionResults, ConvertError>,
) -> bool {
    let prims = db.primitives@;
    let reqs = db.pod_requests@;
    match extraction(items) {
        Err(e) => r == Err::<ConversionResults, ConvertError>(e),
        Ok(ds) => if !all_requests_safe(ds, prims, reqs) {
            match r {
                Err(e) => exists|q: int| first_rejected(ds, prims, reqs, q) && e == ConvertError::SafetyViolation(#[trigger] reqs[q]),
                Ok(_) => false,
            }
        } else if has_unrecognized(excl, ds) {
            match r {
                Err(e) => exists|q: int| first_unrecognized(excl, ds, q) && is_unrecognized(e, decl_name(#[trigger] ds[q])),
                Ok(_) => false,
            }
        } else {
            match r {
                Ok(res) => {
                    &&& exists|parsed: Seq<Api>|
                        api_views(parsed) == expected_records(ds, prims, policy, excl, ds) && #[trigger] survivors(
                            parsed,
                            db.allowlist@,
                        ) == res.apis@
                    &&& res.include_list@ == includes
                    &&& res.use_stmts_by_mod@ == expected_uses(excl, ds)
                },
                Err(_) => false,
            }
        },
    }
}

/// Converts the declarations that a header scanner produced into API records
/// ready for code generation.
pub struct BridgeConverter<'a> {
    pub include_list: &'a [String],
    pub type_database: &'a TypeDatabase,
}

impl<'a> BridgeConverter<'a> {
    pub fn new(include_list: &'a [String], type_database: &'a TypeDatabase) -> (r: Self)
        ensures
            r.include_list@ == include_list@,
            r.type_database == type_database,
    {
        Self { include_list, type_database }
    }

    /// Runs the conversion on the scanner's tree. Fails on the first error:
    /// a tree without its single root container, a type asked to pass by
    /// value that is not safe to, or a declaration of an unsupported shape.
    pub fn convert(&mut self, bindgen_mod: ItemMod, exclude_utilities: bool, unsafe_policy: UnsafePolicy) -> (r: Result<
        ConversionResults,
        ConvertError,
    >)
        ensures
            *final(self) == *old(self),
            match bindgen_mod.content {
                None => r == Err::<ConversionResults, ConvertError>(ConvertError::NoContent),
                Some(items) => converted(
                    *old(self).type_database,
                    old(self).include_list@,
                    items@,
                    exclude_utilities,
                    unsafe_policy,
                    r,
                ),
            },
    {
        let items = match bindgen_mod.content {
            None => return Err(ConvertError::NoContent),
            Some(items) => items,
        };
        let items_in_root = match find_items_in_root(items) {
            Ok(v) => v,
            Err(e) => return Err(e),
        };
        let db = self.type_database;
        let byvalue_checker = match identify_byvalue_safe_types(&items_in_root, db) {
            Ok(c) => c,
            Err(e) => return Err(e),
        };
        let ghost ds = items_in_root@;
        let parser = ParseBindgen::new(byvalue_checker, db, unsafe_policy);
        let parse_results = match parser.convert_items(items_in_root, exclude_utilities) {
            Ok(p) => p,
            Err(e) => return Err(e),
        };
        let ghost parsed = parse_results.apis@;
        let apis = filter_apis_by_following_edges_from_allowlist(parse_results.apis, db);
        let mut include_list: Vec<String> = Vec::new();
        let mut i: usize = 0;
        while i < self.include_list.len()
            invariant
                i <= self.include_list@.len(),
                include_list@.len() == i,
                forall|k: int| 0 <= k < i ==> #[trigger] include_list@[k] == self.include_list@[k],
            decreases self.include_list@.len() - i,
        {
            include_list.push(self.include_list[i].clone());
            i = i + 1;
        }
        proof {
            assert(include_list@ =~= self.include_list@);
            assert(!has_unrecognized(exclude_utilities, ds));
            assert(survivors(parsed, db.allowlist@) == apis@);
        }
        Ok(ConversionResults { apis, include_list, use_stmts_by_mod: parse_results.use_stmts_by_mod })
    }
}

} // verus!
