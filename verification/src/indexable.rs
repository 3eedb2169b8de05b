//! The capability shared by bulk document sources: a collection that knows
//! how to drive a batch indexer across all of its members against one
//! index, staging every extracted document and committing exactly once.

use vstd::prelude::*;

use crate::IndexError;
use crate::index::SearchIndex;

verus! {

/// A bulk source of documents for one index.
///
/// `index_collection` either stages every extracted document and issues a
/// single commit, or leaves the index exactly as it was: no partial commit
/// is ever exposed.
pub trait IndexableCollection {
    /// The collection's own well-formedness.
    spec fn src_wf(&self) -> bool;

    /// The documents the collection yields for an index whose declared
    /// indexed fields are `fields`, in staging order.
    spec fn extracted(&self, fields: Seq<Seq<char>>) -> Seq<Map<Seq<char>, Seq<char>>>;

    /// Whether every yielded document fits a schema declaring `fields` and
    /// the identity field `identity`.
    spec fn can_index(&self, fields: Seq<Seq<char>>, identity: Seq<char>) -> bool;

    /// Extracts a document from every member, stages them all against
    /// `index` and commits once. On success the index has exactly the
    /// extracted documents appended, in order; on failure it is returned
    /// unchanged.
    fn index_collection(&self, index: SearchIndex) -> (res: (
        SearchIndex,
        Result<(), IndexError>,
    ))
        requires
            self.src_wf(),
            index.wf(),
        ensures
            res.0.wf(),
            res.1 is Ok <==> self.can_index(index@.fields, index@.identity),
            res.1 is Ok ==> res.0@ == index@.with_docs(
                index@.docs + self.extracted(index@.fields),
            ),
            !(res.1 is Ok) ==> res.0@ == index@ && res.1 == Err::<(), IndexError>(
                IndexError::ExtractionError,
            ),
    ;
}

} // verus!
