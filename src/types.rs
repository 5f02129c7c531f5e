//! The data that flows between the stages: declarations as the scanner
//! hands them over, and the errors that end a conversion.

use vstd::prelude::*;

verus! {

/// A field of an aggregate type; `ty` is the fully-qualified name of its type.
pub struct Field {
    pub name: String,
    pub ty: String,
}

/// An aggregate (struct-like) type.
pub struct StructDecl {
    pub name: String,
    pub fields: Vec<Field>,
    /// The type has no custom destructor or copy/move semantics.
    pub trivially_copyable: bool,
}

/// A parameter of a function; `ty` is the fully-qualified name of its type.
pub struct Param {
    pub name: String,
    pub ty: String,
}

/// A function signature.
pub struct FnDecl {
    pub name: String,
    pub params: Vec<Param>,
    pub ret: Option<String>,
    /// The declaration itself is marked as needing an unsafe call.
    pub marked_unsafe: bool,
}

/// A named constant of some type.
pub struct ConstDecl {
    pub name: String,
    pub ty: String,
}

/// An import statement found inside a namespace.
pub struct UseDecl {
    pub namespace: String,
    pub path: String,
}

/// One declaration found inside the root container. Names are fully qualified
/// (`ns::inner::Name`).
pub enum Decl {
    Struct(StructDecl),
    Function(FnDecl),
    Const(ConstDecl),
    Use(UseDecl),
    /// A declaration of a shape that the parser does not handle, by name.
    Unsupported(String),
}

/// The container that wraps all declarations.
pub struct RootMod {
    pub ident: String,
    pub content: Option<Vec<Decl>>,
}

/// A node at the outer level of the input tree.
pub enum Item {
    Mod(RootMod),
    /// Anything that is not a module, described by its kind.
    Other(String),
}

/// The whole input tree as the scanner produced it.
pub struct ItemMod {
    pub ident: String,
    pub content: Option<Vec<Item>>,
}

/// Why a conversion stopped.
#[derive(Debug)]
pub enum ConvertError {
    /// The input holds no wrapping container at all.
    NoContent,
    /// A node at the outer level is not the single expected container.
    UnexpectedOuterItem,
    /// A type was requested to travel by value but is not safe to; carries
    /// its name.
    SafetyViolation(String),
    /// A declaration of an unsupported shape; carries its name.
    UnrecognizedDeclaration(String),
}

/// What the surrounding configuration knows about types and names.
pub struct TypeDatabase {
    /// Types that the user asked to be passed by value.
    pub pod_requests: Vec<String>,
    /// Names that must survive pruning.
    pub allowlist: Vec<String>,
    /// Non-aggregate types that are always safe to copy (integers and the like).
    pub primitives: Vec<String>,
}

/// The name under which a declaration is known.
pub open spec fn decl_name(d: Decl) -> Seq<char> {
    match d {
        Decl::Struct(s) => s.name@,
        Decl::Function(f) => f.name@,
        Decl::Const(c) => c.name@,
        Decl::Use(u) => u.path@,
        Decl::Unsupported(n) => n@,
    }
}

/// Whether a list of strings holds `n`.
pub open spec fn has_name(v: Seq<String>, n: Seq<char>) -> bool {
    exists|i: int| 0 <= i < v.len() && #[trigger] v[i]@ == n
}

/// Whether `v` holds `n`.
pub fn contains_name(v: &Vec<String>, n: &String) -> (r: bool)
    ensures
        r == has_name(v@, n@),
{
    let mut i: usize = 0;
    while i < v.len()
        invariant
            i <= v@.len(),
            forall|j: int| 0 <= j < i ==> v@[j]@ != n@,
        decreases v@.len() - i,
    {
        if v[i] == *n {
            return true;
        }
        i = i + 1;
    }
    false
}

} // verus!
