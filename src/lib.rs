//! The data model of an extracted EPUB book: projecting a parsed container into a
//! manifest, classifying resources by MIME type, and deciding what an export writes.
use vstd::prelude::*;

pub mod keyed;
pub mod manifest;
pub mod mime_type;
pub mod text;

verus! {

} // verus!
