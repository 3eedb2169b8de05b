//! A named full-text index and the batch indexer that stages documents
//! against it. An index holds a declared identity field, the declared
//! indexed fields, and the committed documents; a search returns, in commit
//! order, the identity of every document with an indexed field containing
//! the query text.

use vstd::prelude::*;

use crate::IndexError;
use crate::document::{Document, lemma_fields_map_key, lemma_fields_map_value};
use crate::text::{is_substring, contains_substring, contains_string, string_views,
    lemma_string_views_push};

verus! {

/// The mathematical state of one index.
#[verifier::ext_equal]
pub ghost struct IndexModel {
    /// The index's registered name.
    pub name: Seq<char>,
    /// The field whose value stands for a document in search results.
    pub identity: Seq<char>,
    /// The declared indexed fields, in declaration order.
    pub fields: Seq<Seq<char>>,
    /// The committed documents, in commit order.
    pub docs: Seq<Map<Seq<char>, Seq<char>>>,
}

impl IndexModel {
    /// The same index with `docs` as its committed documents.
    pub open spec fn with_docs(self, docs: Seq<Map<Seq<char>, Seq<char>>>) -> IndexModel {
        IndexModel { name: self.name, identity: self.identity, fields: self.fields, docs }
    }
}

/// Every field of `doc` is declared by the schema: an indexed field or the
/// identity field.
pub open spec fn schema_ok(
    doc: Map<Seq<char>, Seq<char>>,
    fields: Seq<Seq<char>>,
    identity: Seq<char>,
) -> bool {
    forall|k: Seq<char>| #[trigger] doc.contains_key(k) ==> fields.contains(k) || k == identity
}

/// Some indexed field of `doc` contains the query text.
pub open spec fn doc_matches(
    doc: Map<Seq<char>, Seq<char>>,
    fields: Seq<Seq<char>>,
    query: Seq<char>,
) -> bool {
    exists|k: Seq<char>|
        #[trigger] doc.contains_key(k) && fields.contains(k) && is_substring(query, doc[k])
}

/// The text a search reports for `doc`: its identity-field value, or empty
/// text when the document carries no identity field.
pub open spec fn identity_of(doc: Map<Seq<char>, Seq<char>>, identity: Seq<char>) -> Seq<char> {
    if doc.contains_key(identity) {
        doc[identity]
    } else {
        Seq::empty()
    }
}

/// The identities of the documents matching `query`, in commit order.
pub open spec fn search_results(
    docs: Seq<Map<Seq<char>, Seq<char>>>,
    fields: Seq<Seq<char>>,
    identity: Seq<char>,
    query: Seq<char>,
) -> Seq<Seq<char>>
    decreases docs.len(),
{
    if docs.len() == 0 {
        Seq::empty()
    } else {
        let rest = search_results(docs.drop_last(), fields, identity, query);
        if doc_matches(docs.last(), fields, query) {
            rest.push(identity_of(docs.last(), identity))
        } else {
            rest
        }
    }
}

/// Indexing a document whose field `f` is indexed and contains the query,
/// and which carries the identity field, makes its identity appear in the
/// results of a search for that query.
pub proof fn lemma_round_trip(
    m: IndexModel,
    doc: Map<Seq<char>, Seq<char>>,
    f: Seq<char>,
    query: Seq<char>,
)
    requires
        m.fields.contains(f),
        doc.contains_key(f),
        is_substring(query, doc[f]),
        doc.contains_key(m.identity),
    ensures
        search_results(m.docs.push(doc), m.fields, m.identity, query).contains(doc[m.identity]),
{
    let docs = m.docs.push(doc);
    assert(docs.drop_last() =~= m.docs);
    assert(doc_matches(doc, m.fields, query));
    let results = search_results(docs, m.fields, m.identity, query);
    assert(results.last() == doc[m.identity]);
}

/// A named full-text index: an identity field, the declared indexed fields,
/// and the committed documents.
pub struct SearchIndex {
    name: String,
    identity_field: String,
    fields: Vec<String>,
    docs: Vec<Document>,
}

impl View for SearchIndex {
    type V = IndexModel;

    closed spec fn view(&self) -> IndexModel {
        IndexModel {
            name: self.name@,
            identity: self.identity_field@,
            fields: string_views(self.fields@),
            docs: Seq::new(self.docs@.len(), |i: int| self.docs@[i]@),
        }
    }
}

impl SearchIndex {
    /// Every committed document is well formed.
    pub closed spec fn wf(&self) -> bool {
        forall|i: int| 0 <= i < self.docs@.len() ==> (#[trigger] self.docs@[i]).wf()
    }

    /// Creates an empty index named `name` that treats `name_field` as the
    /// identity field and indexes exactly `fields`.
    pub fn new(name: String, name_field: String, fields: Vec<String>) -> (index: SearchIndex)
        ensures
            index.wf(),
            index@ == (IndexModel {
                name: name@,
                identity: name_field@,
                fields: string_views(fields@),
                docs: Seq::empty(),
            }),
    {
        let index = SearchIndex { name, identity_field: name_field, fields, docs: Vec::new() };
        proof {
            assert(index@ =~= IndexModel {
                name: index.name@,
                identity: index.identity_field@,
                fields: string_views(index.fields@),
                docs: Seq::empty(),
            });
        }
        index
    }

    /// The index's registered name.
    pub fn name(&self) -> (r: &String)
        ensures
            r@ == self@.name,
    {
        &self.name
    }

    /// The declared indexed fields, in declaration order.
    pub fn field_names(&self) -> (r: Vec<String>)
        ensures
            string_views(r@) == self@.fields,
    {
        let r = self.fields.clone();
        proof {
            assert(string_views(r@) =~= string_views(self.fields@));
        }
        r
    }

    /// How many documents are committed and visible to search.
    pub fn num_docs(&self) -> (n: usize)
        ensures
            n == self@.docs.len(),
    {
        self.docs.len()
    }

    /// Commits one document immediately. The document is accepted exactly
    /// when each of its fields is declared by the index's schema; a document
    /// with an undeclared field is rejected and the index is unchanged.
    pub fn add_document(&mut self, document: Document) -> (r: Result<(), IndexError>)
        requires
            old(self).wf(),
            document.wf(),
        ensures
            final(self).wf(),
            r is Ok <==> schema_ok(document@, old(self)@.fields, old(self)@.identity),
            r is Ok ==> final(self)@ == old(self)@.with_docs(old(self)@.docs.push(document@)),
            !(r is Ok) ==> final(self)@ == old(self)@ && r == Err::<(), IndexError>(
                IndexError::ExtractionError,
            ),
    {
        if !self.document_fits_schema(&document) {
            return Err(IndexError::ExtractionError);
        }
        let ghost dv = document@;
        self.docs.push(document);
        proof {
            assert(self@.docs =~= old(self)@.docs.push(dv));
            assert(self@ =~= old(self)@.with_docs(old(self)@.docs.push(dv)));
        }
        Ok(())
    }

    /// Decides whether every field of `document` is declared by the schema.
    pub(crate) fn document_fits_schema(&self, document: &Document) -> (r: bool)
        requires
            document.wf(),
        ensures
            r == schema_ok(document@, self@.fields, self@.identity),
    {
        let n = document.num_fields();
        let mut i: usize = 0;
        while i < n
            invariant
                document.wf(),
                n == document.entries().len(),
                forall|k: int|
                    0 <= k < i ==> self@.fields.contains(
                        (#[trigger] document.entries()[k]).name@,
                    ) || document.entries()[k].name@ == self@.identity,
            decreases n - i,
        {
            let field = document.field_at(i);
            let indexed = contains_string(&self.fields, &field.name);
            if !(indexed || field.name == self.identity_field) {
                proof {
                    lemma_fields_map_value(document.entries(), i as int);
                }
                return false;
            }
            i = i + 1;
        }
        proof {
            assert forall|k: Seq<char>| #[trigger] document@.contains_key(k) implies self@
                .fields.contains(k) || k == self@.identity by {
                lemma_fields_map_key(document.entries(), k);
                let j = choose|j: int|
                    0 <= j < document.entries().len() && #[trigger] document.entries()[j].name@
                        == k;
                assert(self@.fields.contains(document.entries()[j].name@)
                    || document.entries()[j].name@ == self@.identity);
            }
        }
        true
    }

    /// Returns, in commit order, the identity of every committed document
    /// with an indexed field containing `query`.
    pub fn search(&self, query: &String) -> (r: Vec<String>)
        requires
            self.wf(),
        ensures
            string_views(r@) == search_results(self@.docs, self@.fields, self@.identity, query@),
    {
        let mut results: Vec<String> = Vec::new();
        proof {
            assert(string_views(results@) =~= search_results(
                self@.docs.take(0),
                self@.fields,
                self@.identity,
                query@,
            ));
        }
        let mut i: usize = 0;
        while i < self.docs.len()
            invariant
                self.wf(),
                i <= self.docs@.len(),
                string_views(results@) == search_results(
                    self@.docs.take(i as int),
                    self@.fields,
                    self@.identity,
                    query@,
                ),
            decreases self.docs@.len() - i,
        {
            let doc = &self.docs[i];
            if self.doc_matches_query(doc, query) {
                let id = match doc.get(&self.identity_field) {
                    Some(v) => v.clone(),
                    None => String::new(),
                };
                assert(id@ == identity_of(doc@, self@.identity));
                proof {
                    lemma_string_views_push(results@, id);
                }
                results.push(id);
            }
            proof {
                assert(self@.docs.take(i + 1).drop_last() =~= self@.docs.take(i as int));
                assert(self@.docs.take(i + 1).last() == doc@);
            }
            i = i + 1;
        }
        proof {
            assert(self@.docs.take(self.docs@.len() as int) =~= self@.docs);
        }
        results
    }

    /// Decides whether some indexed field of `doc` contains `query`.
    fn doc_matches_query(&self, doc: &Document, query: &String) -> (r: bool)
        requires
            doc.wf(),
        ensures
            r == doc_matches(doc@, self@.fields, query@),
    {
        let n = doc.num_fields();
        let mut i: usize = 0;
        while i < n
            invariant
                doc.wf(),
                n == doc.entries().len(),
                forall|k: int|
                    0 <= k < i ==> !(self@.fields.contains(
                        (#[trigger] doc.entries()[k]).name@,
                    ) && is_substring(query@, doc.entries()[k].value@)),
            decreases n - i,
        {
            let field = doc.field_at(i);
            if contains_string(&self.fields, &field.name)
                && contains_substring(field.value.as_str(), query.as_str()) {
                proof {
                    lemma_fields_map_value(doc.entries(), i as int);
                }
                return true;
            }
            i = i + 1;
        }
        proof {
            if doc_matches(doc@, self@.fields, query@) {
                let k = choose|k: Seq<char>|
                    #[trigger] doc@.contains_key(k) && self@.fields.contains(k) && is_substring(
                        query@,
                        doc@[k],
                    );
                lemma_fields_map_key(doc.entries(), k);
                let j = choose|j: int|
                    0 <= j < doc.entries().len() && #[trigger] doc.entries()[j].name@ == k;
                lemma_fields_map_value(doc.entries(), j);
            }
        }
        false
    }
}

/// The mathematical state of a batch indexer: the bound index and the
/// documents staged since the batch began.
#[verifier::ext_equal]
pub ghost struct BatchModel {
    /// The model of the index the batch is bound to, as it stood when the
    /// batch began.
    pub index: IndexModel,
    /// The staged documents, in staging order.
    pub staged: Seq<Map<Seq<char>, Seq<char>>>,
}

/// Stages documents against one index and makes them all searchable with a
/// single commit. Committing consumes the indexer, so no document can be
/// staged after the batch's commit.
pub struct BatchIndexer {
    index: SearchIndex,
    staged: Vec<Document>,
}

impl View for BatchIndexer {
    type V = BatchModel;

    closed spec fn view(&self) -> BatchModel {
        BatchModel {
            index: self.index@,
            staged: Seq::new(self.staged@.len(), |i: int| self.staged@[i]@),
        }
    }
}

impl BatchIndexer {
    /// The bound index and every staged document are well formed.
    pub closed spec fn wf(&self) -> bool {
        self.index.wf() && forall|i: int|
            0 <= i < self.staged@.len() ==> (#[trigger] self.staged@[i]).wf()
    }

    /// Binds a new batch, with nothing staged, to `index`.
    pub fn new(index: SearchIndex) -> (b: BatchIndexer)
        requires
            index.wf(),
        ensures
            b.wf(),
            b@.index == index@,
            b@.staged == Seq::<Map<Seq<char>, Seq<char>>>::empty(),
    {
        let b = BatchIndexer { index, staged: Vec::new() };
        proof {
            assert(b@.staged =~= Seq::<Map<Seq<char>, Seq<char>>>::empty());
        }
        b
    }

    /// Stages one document; it is not searchable until the batch commits.
    /// The document is accepted exactly when each of its fields is declared
    /// by the bound index's schema.
    pub fn add_document(&mut self, document: Document) -> (r: Result<(), IndexError>)
        requires
            old(self).wf(),
            document.wf(),
        ensures
            final(self).wf(),
            final(self)@.index == old(self)@.index,
            r is Ok <==> schema_ok(document@, old(self)@.index.fields, old(self)@.index.identity),
            r is Ok ==> final(self)@.staged == old(self)@.staged.push(document@),
            !(r is Ok) ==> final(self)@ == old(self)@ && r == Err::<(), IndexError>(
                IndexError::ExtractionError,
            ),
    {
        if !self.index.document_fits_schema(&document) {
            return Err(IndexError::ExtractionError);
        }
        let ghost dv = document@;
        self.staged.push(document);
        proof {
            assert(self@.staged =~= old(self)@.staged.push(dv));
        }
        Ok(())
    }

    /// How many documents are staged for the next commit.
    pub fn num_staged(&self) -> (n: usize)
        ensures
            n == self@.staged.len(),
    {
        self.staged.len()
    }

    /// Commits the batch: every staged document becomes searchable at once,
    /// and the bound index is handed back. A commit with nothing staged
    /// leaves the index exactly as it was, and a commit never errors.
    pub fn commit(self) -> (index: SearchIndex)
        requires
            self.wf(),
        ensures
            index.wf(),
            index@ == self@.index.with_docs(self@.index.docs + self@.staged),
            self@.staged.len() == 0 ==> index@ == self@.index,
    {
        let ghost m = self@;
        let BatchIndexer { mut index, mut staged } = self;
        index.docs.append(&mut staged);
        proof {
            assert(index@.docs =~= m.index.docs + m.staged);
            assert(index@ =~= m.index.with_docs(m.index.docs + m.staged));
            if m.staged.len() == 0 {
                assert(m.index.docs + m.staged =~= m.index.docs);
                assert(index@ =~= m.index);
            }
        }
        index
    }

    /// Abandons the batch: the staged documents are discarded and the bound
    /// index is handed back exactly as it was when the batch began.
    pub fn abort(self) -> (index: SearchIndex)
        requires
            self.wf(),
        ensures
            index.wf(),
            index@ == self@.index,
    {
        self.index
    }
}

} // verus!
