//! Finds the declarations inside the single wrapping container of the tree.

use vstd::prelude::*;
use crate::types::{ConvertError, Decl, Item};

verus! {

/// The name that marks the wrapping container.
pub open spec fn root_marker() -> Seq<char> {
    "root"@
}

/// Whether an outer node is the wrapping container, whatever its body.
pub open spec fn is_root_container(it: Item) -> bool {
    match it {
        Item::Mod(m) => m.ident@ == root_marker(),
        Item::Other(_) => false,
    }
}

/// What extraction gives for the outer nodes `items`: the body of the one
/// wrapping container; `NoContent` where there is no container, or one
/// without a body; `UnexpectedOuterItem` where an outer node is anything
/// else or there are several.
pub open spec fn extraction(items: Seq<Item>) -> Result<Seq<Decl>, ConvertError> {
    if items.len() == 0 {
        Err(ConvertError::NoContent)
    } else if items.len() == 1 && is_root_container(items[0]) {
        match items[0] {
            Item::Mod(m) => match m.content {
                Some(c) => Ok(c@),
                None => Err(ConvertError::NoContent),
            },
            Item::Other(_) => Err(ConvertError::UnexpectedOuterItem),
        }
    } else {
        Err(ConvertError::UnexpectedOuterItem)
    }
}

/// Whether a result of extraction is a malformed-input failure.
pub open spec fn is_malformed(r: Result<Seq<Decl>, ConvertError>) -> bool {
    match r {
        Err(ConvertError::NoContent) => true,
        Err(ConvertError::UnexpectedOuterItem) => true,
        _ => false,
    }
}

/// Returns the declarations wrapped by the single root container of `items`.
pub fn find_items_in_root(items: Vec<Item>) -> (r: Result<Vec<Decl>, ConvertError>)
    ensures
        match r {
            Ok(v) => extraction(items@) == Ok::<Seq<Decl>, ConvertError>(v@),
            Err(e) => extraction(items@) == Err::<Seq<Decl>, ConvertError>(e),
        },
{
    if items.len() != 1 {
        if items.len() == 0 {
            return Err(ConvertError::NoContent);
        }
        return Err(ConvertError::UnexpectedOuterItem);
    }
    let mut items = items;
    let item = items.pop().unwrap();
    match item {
        Item::Mod(root_mod) => {
            let marker = "root".to_owned();
            if root_mod.ident == marker {
                match root_mod.content {
                    Some(c) => Ok(c),
                    None => Err(ConvertError::NoContent),
                }
            } else {
                Err(ConvertError::UnexpectedOuterItem)
            }
        },
        Item::Other(_) => Err(ConvertError::UnexpectedOuterItem),
    }
}

/// Extraction fails with a malformed-input error exactly where the tree
/// lacks the single wrapping container with a body; a container with an
/// empty body gives an empty sequence.
pub proof fn lemma_extraction_malformed(items: Seq<Item>)
    ensures
        is_malformed(extraction(items)) <==> !(items.len() == 1 && is_root_container(items[0])
            && match items[0] {
            Item::Mod(m) => m.content.is_some(),
            Item::Other(_) => false,
        }),
        (items.len() == 1 && is_root_container(items[0]) && match items[0] {
            Item::Mod(m) => m.content.is_some() && m.content.unwrap()@.len() == 0,
            Item::Other(_) => false,
        }) ==> extraction(items) == Ok::<Seq<Decl>, ConvertError>(Seq::empty()),
{
    if items.len() == 1 && is_root_container(items[0]) {
        match items[0] {
            Item::Mod(m) => {
                if m.content.is_some() {
                    assert(m.content.unwrap()@.len() == 0 ==> m.content.unwrap()@ =~= Seq::<Decl>::empty());
                }
            },
            Item::Other(_) => {},
        }
    }
}

} // verus!
