//! The storage-level error taxonomy. Backend failures are collapsed to a
//! small set of kinds so the protocol layer can map them in one place.

use vstd::prelude::*;

verus! {

#[derive(Debug, PartialEq, Eq)]
pub enum StorageError {
    /// The addressed object (blob, manifest, scratch file) does not exist.
    ContentNotFound,
    /// A chunk arrived at an offset other than the current upload length.
    RangeNotSatisfied,
    /// A manifest or index payload was not valid OCI JSON.
    SpecParse,
    /// A stored tag list could not be decoded.
    SerdeParse,
    /// Any other backend failure.
    Backend,
}

} // verus!
