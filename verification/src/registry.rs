//! The index registry: the single owner of the named indices. It creates
//! indices, lists their names, and routes single-document ingestion, bulk
//! ingestion and search to the index registered under a name.

use vstd::prelude::*;

use crate::IndexError;
use crate::document::Document;
use crate::index::{SearchIndex, IndexModel, schema_ok, search_results, lemma_round_trip};
use crate::indexable::IndexableCollection;
use crate::text::{is_substring, string_views};

verus! {

/// The mapping from name to index model that a list of indices denotes,
/// later entries winning.
pub open spec fn indices_map(indices: Seq<SearchIndex>) -> Map<Seq<char>, IndexModel>
    decreases indices.len(),
{
    if indices.len() == 0 {
        Map::empty()
    } else {
        indices_map(indices.drop_last()).insert(indices.last()@.name, indices.last()@)
    }
}

/// The model of a just-created index: no documents yet.
pub open spec fn fresh_index_model(
    name: Seq<char>,
    identity: Seq<char>,
    fields: Seq<Seq<char>>,
) -> IndexModel {
    IndexModel { name, identity, fields, docs: Seq::empty() }
}

/// A name is in the denoted mapping exactly when some index carries it.
proof fn lemma_indices_map_key(indices: Seq<SearchIndex>, k: Seq<char>)
    ensures
        indices_map(indices).contains_key(k) <==> exists|i: int|
            0 <= i < indices.len() && (#[trigger] indices[i])@.name == k,
    decreases indices.len(),
{
    if indices.len() > 0 {
        lemma_indices_map_key(indices.drop_last(), k);
        if indices.last()@.name == k {
            assert(indices[indices.len() - 1]@.name == k);
        } else if indices_map(indices).contains_key(k) {
            let i = choose|i: int|
                0 <= i < indices.drop_last().len() && (#[trigger] indices.drop_last()[i])@.name
                    == k;
            assert(indices[i]@.name == k);
        } else {
            assert forall|i: int|
                0 <= i < indices.len() && (#[trigger] indices[i])@.name == k implies false by {
                assert(indices.drop_last()[i]@.name == k);
            }
        }
    }
}

/// Index names are pairwise distinct.
pub open spec fn names_unique(indices: Seq<SearchIndex>) -> bool {
    forall|i: int, j: int|
        0 <= i < j < indices.len() ==> (#[trigger] indices[i])@.name != (
        #[trigger] indices[j])@.name
}

/// For unique names, the index at position `i` gives the mapping's value
/// at its name.
proof fn lemma_indices_map_value(indices: Seq<SearchIndex>, i: int)
    requires
        names_unique(indices),
        0 <= i < indices.len(),
    ensures
        indices_map(indices).contains_key(indices[i]@.name),
        indices_map(indices)[indices[i]@.name] == indices[i]@,
    decreases indices.len(),
{
    if i == indices.len() - 1 {
    } else {
        lemma_indices_map_value(indices.drop_last(), i);
        assert(indices.drop_last()[i] == indices[i]);
    }
}

/// For unique names, replacing the index at position `i` by one of the
/// same name updates the denoted mapping at that name.
proof fn lemma_indices_map_update(indices: Seq<SearchIndex>, i: int, x: SearchIndex)
    requires
        names_unique(indices),
        0 <= i < indices.len(),
        indices[i]@.name == x@.name,
    ensures
        indices_map(indices.update(i, x)) == indices_map(indices).insert(x@.name, x@),
    decreases indices.len(),
{
    let updated = indices.update(i, x);
    if i == indices.len() - 1 {
        assert(updated.drop_last() =~= indices.drop_last());
        assert(indices_map(updated) =~= indices_map(indices).insert(x@.name, x@));
    } else {
        lemma_indices_map_update(indices.drop_last(), i, x);
        assert(updated.drop_last() =~= indices.drop_last().update(i, x));
        assert(updated.last() == indices.last());
        assert(indices_map(updated) =~= indices_map(indices).insert(x@.name, x@));
    }
}

/// The single owner of the named indices. Every operation resolves a name
/// first and fails with `NotFound` when no index is registered under it.
pub struct IndexRegistry {
    indices: Vec<SearchIndex>,
}

impl View for IndexRegistry {
    type V = Map<Seq<char>, IndexModel>;

    closed spec fn view(&self) -> Map<Seq<char>, IndexModel> {
        indices_map(self.indices@)
    }
}

impl IndexRegistry {
    /// Names are pairwise distinct and every index is well formed.
    pub closed spec fn wf(&self) -> bool {
        names_unique(self.indices@) && forall|i: int|
            0 <= i < self.indices@.len() ==> (#[trigger] self.indices@[i]).wf()
    }

    /// Creates a registry with no indices.
    pub fn new() -> (r: IndexRegistry)
        ensures
            r.wf(),
            r@ == Map::<Seq<char>, IndexModel>::empty(),
    {
        IndexRegistry { indices: Vec::new() }
    }

    /// The position of the index registered under `name`, if any.
    fn position_of(&self, name: &String) -> (r: Option<usize>)
        ensures
            match r {
                Some(i) => i < self.indices@.len() && self.indices@[i as int]@.name == name@,
                None => forall|i: int|
                    0 <= i < self.indices@.len() ==> (#[trigger] self.indices@[i])@.name != name@,
            },
    {
        let mut i: usize = 0;
        while i < self.indices.len()
            invariant
                i <= self.indices@.len(),
                forall|k: int|
                    0 <= k < i ==> (#[trigger] self.indices@[k])@.name != name@,
            decreases self.indices@.len() - i,
        {
            if *self.indices[i].name() == *name {
                return Some(i);
            }
            i = i + 1;
        }
        None
    }

    /// Lists the names of all registered indices: exactly the registry's
    /// keys, each once.
    pub fn get_index_names(&self) -> (names: Vec<String>)
        requires
            self.wf(),
        ensures
            string_views(names@).to_set() == self@.dom(),
            string_views(names@).no_duplicates(),
    {
        let mut names: Vec<String> = Vec::new();
        let mut i: usize = 0;
        #[verifier::loop_isolation(false)]
        while i < self.indices.len()
            invariant
                i <= self.indices@.len(),
                string_views(names@) =~= Seq::new(i as nat, |k: int| self.indices@[k]@.name),
            decreases self.indices@.len() - i,
        {
            let n = self.indices[i].name().clone();
            proof {
                crate::text::lemma_string_views_push(names@, n);
            }
            names.push(n);
            i = i + 1;
        }
        proof {
            let views = string_views(names@);
            assert forall|k: Seq<char>| views.to_set().contains(k) <==> self@.dom().contains(
                k,
            ) by {
                lemma_indices_map_key(self.indices@, k);
                if views.to_set().contains(k) {
                    let j = choose|j: int| 0 <= j < views.len() && views[j] == k;
                    assert(self.indices@[j]@.name == k);
                }
                if self@.dom().contains(k) {
                    let j = choose|j: int|
                        0 <= j < self.indices@.len() && (#[trigger] self.indices@[j])@.name == k;
                    assert(views[j] == k);
                }
            }
            assert(views.to_set() =~= self@.dom());
            assert forall|a: int, b: int|
                0 <= a < views.len() && 0 <= b < views.len() && a != b implies views[a]
                != views[b] by {
                if a < b {
                    assert(self.indices@[a]@.name != self.indices@[b]@.name);
                } else {
                    assert(self.indices@[b]@.name != self.indices@[a]@.name);
                }
            }
        }
        names
    }

    /// Registers an empty index under `name` with `name_field` as its
    /// identity field and `fields` as its indexed fields. An index already
    /// registered under `name` is replaced.
    pub fn initialize_index(&mut self, name: String, name_field: String, fields: Vec<String>) -> (r:
        Result<(), IndexError>)
        requires
            old(self).wf(),
        ensures
            final(self).wf(),
            r is Ok,
            final(self)@ == old(self)@.insert(
                name@,
                fresh_index_model(name@, name_field@, string_views(fields@)),
            ),
    {
        let position = self.position_of(&name);
        let index = SearchIndex::new(name, name_field, fields);
        match position {
            Some(i) => {
                proof {
                    lemma_indices_map_update(self.indices@, i as int, index);
                }
                self.indices.remove(i);
                self.indices.insert(i, index);
                proof {
                    assert(self.indices@ =~= old(self).indices@.update(
                        i as int,
                        self.indices@[i as int],
                    ));
                }
            },
            None => {
                self.indices.push(index);
                proof {
                    assert(self.indices@.drop_last() =~= old(self).indices@);
                }
            },
        }
        Ok(())
    }

    /// Forwards one document to the index registered under `name`. Fails
    /// with `NotFound` when no index carries the name, and rejects the
    /// document exactly as the index itself would.
    pub fn index_document(&mut self, name: String, document: Document) -> (r: Result<
        (),
        IndexError,
    >)
        requires
            old(self).wf(),
            document.wf(),
        ensures
            final(self).wf(),
            !old(self)@.contains_key(name@) ==> r == Err::<(), IndexError>(IndexError::NotFound)
                && final(self)@ == old(self)@,
            old(self)@.contains_key(name@) ==> ({
                let m = old(self)@[name@];
                &&& (r is Ok <==> schema_ok(document@, m.fields, m.identity))
                &&& (r is Ok ==> final(self)@ == old(self)@.insert(
                    name@,
                    m.with_docs(m.docs.push(document@)),
                ))
                &&& (!(r is Ok) ==> r == Err::<(), IndexError>(IndexError::ExtractionError)
                    && final(self)@ == old(self)@)
            }),
    {
        let position = match self.position_of(&name) {
            Some(i) => i,
            None => {
                proof {
                    lemma_indices_map_key(self.indices@, name@);
                }
                return Err(IndexError::NotFound);
            },
        };
        proof {
            lemma_indices_map_value(self.indices@, position as int);
        }
        let mut index = self.indices.remove(position);
        let r = index.add_document(document);
        proof {
            lemma_indices_map_update(old(self).indices@, position as int, index);
        }
        self.indices.insert(position, index);
        proof {
            assert(self.indices@ =~= old(self).indices@.update(
                position as int,
                self.indices@[position as int],
            ));
            if !(r is Ok) {
                assert(old(self).indices@.update(
                    position as int,
                    old(self).indices@[position as int],
                ) =~= old(self).indices@);
            }
        }
        r
    }

    /// Searches the index registered under `name` and returns the matching
    /// documents' identities in commit order. Fails with `NotFound` when no
    /// index carries the name.
    pub fn search(&self, name: String, query: String) -> (r: Result<Vec<String>, IndexError>)
        requires
            self.wf(),
        ensures
            !self@.contains_key(name@) ==> r == Err::<Vec<String>, IndexError>(
                IndexError::NotFound,
            ),
            self@.contains_key(name@) ==> r is Ok && string_views(r->Ok_0@) == search_results(
                self@[name@].docs,
                self@[name@].fields,
                self@[name@].identity,
                query@,
            ),
    {
        let position = match self.position_of(&name) {
            Some(i) => i,
            None => {
                proof {
                    lemma_indices_map_key(self.indices@, name@);
                }
                return Err(IndexError::NotFound);
            },
        };
        proof {
            lemma_indices_map_value(self.indices@, position as int);
        }
        Ok(self.indices[position].search(&query))
    }

    /// Hands the bulk source `rows` to the index registered under `name`:
    /// its documents are extracted, staged and committed once. Fails with
    /// `NotFound` when no index carries the name; on extraction failure the
    /// registry is unchanged.
    pub fn index_bulk<C: IndexableCollection>(&mut self, name: String, rows: &C) -> (r: Result<
        (),
        IndexError,
    >)
        requires
            old(self).wf(),
            rows.src_wf(),
        ensures
            final(self).wf(),
            !old(self)@.contains_key(name@) ==> r == Err::<(), IndexError>(IndexError::NotFound)
                && final(self)@ == old(self)@,
            old(self)@.contains_key(name@) ==> ({
                let m = old(self)@[name@];
                &&& (r is Ok <==> rows.can_index(m.fields, m.identity))
                &&& (r is Ok ==> final(self)@ == old(self)@.insert(
                    name@,
                    m.with_docs(m.docs + rows.extracted(m.fields)),
                ))
                &&& (!(r is Ok) ==> r == Err::<(), IndexError>(IndexError::ExtractionError)
                    && final(self)@ == old(self)@)
            }),
    {
        let position = match self.position_of(&name) {
            Some(i) => i,
            None => {
                proof {
                    lemma_indices_map_key(self.indices@, name@);
                }
                return Err(IndexError::NotFound);
            },
        };
        proof {
            lemma_indices_map_value(self.indices@, position as int);
        }
        let index = self.indices.remove(position);
        let (index, r) = rows.index_collection(index);
        proof {
            lemma_indices_map_update(old(self).indices@, position as int, index);
        }
        self.indices.insert(position, index);
        proof {
            assert(self.indices@ =~= old(self).indices@.update(
                position as int,
                self.indices@[position as int],
            ));
            if !(r is Ok) {
                assert(old(self).indices@.update(
                    position as int,
                    old(self).indices@[position as int],
                ) =~= old(self).indices@);
            }
        }
        r
    }
}

/// A freshly initialized index is visible under its name, and its declared
/// fields are exactly those given, as a set and in order.
pub proof fn lemma_initialize_index_visible(
    registry: Map<Seq<char>, IndexModel>,
    name: Seq<char>,
    identity: Seq<char>,
    fields: Seq<Seq<char>>,
)
    ensures
        registry.insert(name, fresh_index_model(name, identity, fields)).dom().contains(name),
        registry.insert(name, fresh_index_model(name, identity, fields))[name].fields == fields,
        registry.insert(name, fresh_index_model(name, identity, fields))[name].fields.to_set()
            == fields.to_set(),
{
}

/// Indexing a document into a registered index and then searching that
/// index for a query contained in one of the document's indexed fields
/// reports the document's identity: the registry-level round trip.
pub proof fn lemma_index_then_search(
    registry: Map<Seq<char>, IndexModel>,
    name: Seq<char>,
    doc: Map<Seq<char>, Seq<char>>,
    field: Seq<char>,
    query: Seq<char>,
)
    requires
        registry.contains_key(name),
        registry[name].fields.contains(field),
        doc.contains_key(field),
        is_substring(query, doc[field]),
        doc.contains_key(registry[name].identity),
    ensures
        ({
            let m = registry[name];
            let after = registry.insert(name, m.with_docs(m.docs.push(doc)));
            search_results(after[name].docs, after[name].fields, after[name].identity, query)
                .contains(doc[m.identity])
        }),
{
    lemma_round_trip(registry[name], doc, field, query);
}

} // verus!
