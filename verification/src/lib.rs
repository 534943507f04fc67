//! Decomposition of tree-shaped documents into flat, content-addressed
//! key/value records, and the data model for reconstructing an ordered tree
//! from such records.

use vstd::prelude::*;

pub mod hash;
pub mod decompose;
pub mod node;

verus! {

/// Why an operation of this library failed.
///
/// Collaborator failures (store writes, signing) belong to the callers that
/// perform them; this library itself fails only for the reasons below.
#[derive(Debug)]
pub enum Error {
    /// Array decomposition was requested; arrays are represented only by
    /// their length and their elements are never decomposed.
    Unsupported,
    /// A kind name did not match any variant; carries the offending name.
    UnknownKindName(String),
    /// A kind hash did not match any variant; carries the offending hash.
    UnknownKindHash(crate::hash::Hash),
}

/// The namespace discriminator under which structural key records are filed.
pub open spec fn spec_kind_key() -> crate::hash::Hash {
    crate::hash::Hash::spec_of("__ipis__ipqis__key__"@)
}

/// The namespace discriminator under which value records are filed.
pub open spec fn spec_kind_value() -> crate::hash::Hash {
    crate::hash::Hash::spec_of("__ipis__ipqis__value__"@)
}

/// The protocol discriminator of this store as a whole.
pub open spec fn spec_kind() -> crate::hash::Hash {
    crate::hash::Hash::spec_of("__ipis__ipqis__"@)
}

/// Namespace discriminator for key records ("which text stands at this path").
pub fn kind_key() -> (h: crate::hash::Hash)
    ensures
        h == spec_kind_key(),
{
    crate::hash::Hash::with_str("__ipis__ipqis__key__")
}

/// Namespace discriminator for value records ("which payload stands at this path").
pub fn kind_value() -> (h: crate::hash::Hash)
    ensures
        h == spec_kind_value(),
{
    crate::hash::Hash::with_str("__ipis__ipqis__value__")
}

/// Protocol discriminator of the store.
pub fn kind() -> (h: crate::hash::Hash)
    ensures
        h == spec_kind(),
{
    crate::hash::Hash::with_str("__ipis__ipqis__")
}

} // verus!
