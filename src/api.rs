//! API records: the unit of the intermediate representation.

use vstd::prelude::*;
use crate::safety::Safety;

verus! {

/// How a value crosses the boundary in a generated signature.
#[derive(PartialEq, Eq, Structural, Debug, Clone, Copy)]
pub enum Passing {
    ByValue,
    /// Through a pointer or reference.
    ByReference,
}

/// What kind of API a record stands for, with what is particular to it.
#[derive(Debug)]
pub enum ApiDetail {
    /// An aggregate type, with its classification.
    Type { safety: Safety },
    /// A function: how each parameter and the result are passed, and whether
    /// calling it needs an unsafe annotation.
    Function { params: Vec<Passing>, ret: Option<Passing>, needs_unsafe: bool },
    Const,
}

/// One API record: its fully-qualified name, its kind, and the names of the
/// types that it mentions.
#[derive(Debug)]
pub struct Api {
    pub name: String,
    pub detail: ApiDetail,
    pub deps: Vec<String>,
}

} // verus!
