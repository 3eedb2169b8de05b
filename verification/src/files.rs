//! The file-based bulk source: a collection of already-read files, each
//! yielding one document with a `name` field holding the file's path and a
//! `contents` field holding its full text.

use vstd::prelude::*;

use crate::IndexError;
use crate::document::Document;
use crate::index::{SearchIndex, BatchIndexer, schema_ok};
use crate::indexable::IndexableCollection;

verus! {

/// One file, already read: its path and its full text content.
pub struct FileRecord {
    pub path: String,
    pub contents: String,
}

/// A bulk source of file documents, in collection order.
pub struct FileCollection {
    records: Vec<FileRecord>,
}

/// The document a file yields: `name` mapped to the path and `contents`
/// mapped to the text, and nothing else.
pub open spec fn file_doc(path: Seq<char>, contents: Seq<char>) -> Map<Seq<char>, Seq<char>> {
    Map::empty().insert("name"@, path).insert("contents"@, contents)
}

impl View for FileCollection {
    type V = Seq<(Seq<char>, Seq<char>)>;

    closed spec fn view(&self) -> Seq<(Seq<char>, Seq<char>)> {
        Seq::new(self.records@.len(), |i: int| (self.records@[i].path@, self.records@[i].contents@))
    }
}

impl FileCollection {
    /// Wraps a list of read files as a bulk source.
    pub fn new(records: Vec<FileRecord>) -> (c: FileCollection)
        ensures
            c@ == Seq::new(records@.len(), |i: int| (records@[i].path@, records@[i].contents@)),
    {
        FileCollection { records }
    }

    /// Builds the document for one file.
    fn record_doc(record: &FileRecord) -> (d: Document)
        ensures
            d.wf(),
            d@ == file_doc(record.path@, record.contents@),
    {
        let mut d = Document::new();
        d.insert("name".to_owned(), record.path.clone());
        d.insert("contents".to_owned(), record.contents.clone());
        d
    }
}

impl IndexableCollection for FileCollection {
    open spec fn src_wf(&self) -> bool {
        true
    }

    open spec fn extracted(&self, fields: Seq<Seq<char>>) -> Seq<Map<Seq<char>, Seq<char>>> {
        Seq::new(self@.len(), |i: int| file_doc(self@[i].0, self@[i].1))
    }

    open spec fn can_index(&self, fields: Seq<Seq<char>>, identity: Seq<char>) -> bool {
        self@.len() == 0 || ((fields.contains("name"@) || "name"@ == identity) && (
        fields.contains("contents"@) || "contents"@ == identity))
    }

    fn index_collection(&self, index: SearchIndex) -> (res: (
        SearchIndex,
        Result<(), IndexError>,
    )) {
        let ghost m = index@;
        let mut b = BatchIndexer::new(index);
        let mut i: usize = 0;
        #[verifier::loop_isolation(false)]
        while i < self.records.len()
            invariant
                b.wf(),
                b@.index == m,
                i <= self.records@.len(),
                b@.staged == self.extracted(m.fields).take(i as int),
                i > 0 ==> self.can_index(m.fields, m.identity),
            decreases self.records@.len() - i,
        {
            let doc = FileCollection::record_doc(&self.records[i]);
            let ghost dv = doc@;
            match b.add_document(doc) {
                Ok(_) => {
                    proof {
                        lemma_file_doc_schema(dv, m.fields, m.identity);
                        assert(self.extracted(m.fields).take(i + 1).drop_last() =~= self
                            .extracted(m.fields).take(i as int));
                        assert(b@.staged =~= self.extracted(m.fields).take(i + 1));
                    }
                },
                Err(e) => {
                    proof {
                        lemma_file_doc_schema(dv, m.fields, m.identity);
                    }
                    return (b.abort(), Err(e));
                },
            }
            i = i + 1;
        }
        proof {
            assert(b@.staged =~= self.extracted(m.fields));
            if self.records@.len() == 0 {
                assert(self.extracted(m.fields) =~= Seq::<Map<Seq<char>, Seq<char>>>::empty());
            }
        }
        (b.commit(), Ok(()))
    }
}

/// A file document fits a schema exactly when both of its two fields,
/// `name` and `contents`, are declared by it.
proof fn lemma_file_doc_schema(
    doc: Map<Seq<char>, Seq<char>>,
    fields: Seq<Seq<char>>,
    identity: Seq<char>,
)
    requires
        exists|p: Seq<char>, c: Seq<char>| doc == file_doc(p, c),
    ensures
        schema_ok(doc, fields, identity) <==> ((fields.contains("name"@) || "name"@ == identity)
            && (fields.contains("contents"@) || "contents"@ == identity)),
{
    reveal_strlit("name");
    reveal_strlit("contents");
    let p = choose|p: Seq<char>, c: Seq<char>| doc == file_doc(p, c);
    assert(doc.contains_key("name"@));
    assert(doc.contains_key("contents"@));
    assert forall|k: Seq<char>| #[trigger] doc.contains_key(k) implies k == "name"@ || k
        == "contents"@ by {}
}

} // verus!
