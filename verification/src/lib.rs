//! A registry of named full-text indices with batched bulk ingestion.
//!
//! The crate coordinates three pieces: a registry that owns a set of
//! independently created, named search indices; a batch indexer that stages
//! documents against one index and makes them searchable with a single
//! commit; and document extraction, which turns rows of a text table or a
//! collection of files into field-to-text documents scoped to the fields an
//! index actually declares.

use vstd::prelude::*;

pub mod document;
pub mod files;
pub mod index;
pub mod indexable;
pub mod registry;
pub mod table;
pub mod text;

verus! {

/// An error surfaced by a registry or indexing operation.
#[derive(Clone, Copy, Debug, PartialEq, Eq, Structural)]
pub enum IndexError {
    /// The operation referenced an index name that is not registered.
    NotFound,
    /// A document carries a field the target index's schema does not declare.
    ExtractionError,
}

} // verus!
