//! The middle of a binding generator: it takes the declarations that a
//! header scanner produced, works out which aggregate types may travel by
//! value, turns the declarations into API records and prunes those records to
//! what an allowlist needs.

pub mod types;
pub mod extract;
pub mod safety;
pub mod api;
pub mod gc;
pub mod parse;
pub mod conversion;
