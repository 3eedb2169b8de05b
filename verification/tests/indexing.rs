use brt_core::IndexError;
use brt_core::document::Document;
use brt_core::files::{FileCollection, FileRecord};
use brt_core::index::{BatchIndexer, SearchIndex};
use brt_core::indexable::IndexableCollection;
use brt_core::table::{Column, ColumnCells, TextTable};

fn text_column(name: &str, cells: Vec<Option<&str>>) -> Column {
    Column {
        name: name.to_string(),
        cells: ColumnCells::Text(cells.into_iter().map(|c| c.map(|s| s.to_string())).collect()),
    }
}

fn load_test_table() -> TextTable {
    TextTable::new(
        vec![
            text_column("title", vec![Some("test title"), Some("test title 2")]),
            text_column("body", vec![Some("test body"), Some("test body 2")]),
        ],
        2,
    )
    .unwrap()
}

#[test]
fn test_indexing_df() {
    let index = SearchIndex::new(
        "test_index".to_string(),
        "title".to_string(),
        vec!["body".to_string()],
    );

    let df = load_test_table();
    let (index, result) = df.index_collection(index);
    result.unwrap();

    let num_docs = index.num_docs();
    assert_eq!(num_docs, 2);
}

#[test]
fn field_names_are_exactly_the_declared_fields() {
    let index = SearchIndex::new(
        "idx".to_string(),
        "title".to_string(),
        vec!["body".to_string(), "summary".to_string()],
    );
    assert_eq!(index.field_names(), vec!["body".to_string(), "summary".to_string()]);
}

#[test]
fn add_document_then_search_round_trip() {
    let mut index = SearchIndex::new(
        "idx".to_string(),
        "title".to_string(),
        vec!["body".to_string()],
    );
    let mut doc = Document::new();
    doc.insert("title".to_string(), "Doc A".to_string());
    doc.insert("body".to_string(), "a very zebra-like token".to_string());
    index.add_document(doc).unwrap();

    let results = index.search(&"zebra".to_string());
    assert_eq!(results, vec!["Doc A".to_string()]);
}

#[test]
fn identity_field_value_is_not_searched() {
    let mut index = SearchIndex::new(
        "idx".to_string(),
        "title".to_string(),
        vec!["body".to_string()],
    );
    let mut doc = Document::new();
    doc.insert("title".to_string(), "unicorn".to_string());
    doc.insert("body".to_string(), "plain text".to_string());
    index.add_document(doc).unwrap();

    assert_eq!(index.search(&"unicorn".to_string()), Vec::<String>::new());
    assert_eq!(index.search(&"plain".to_string()), vec!["unicorn".to_string()]);
}

#[test]
fn add_document_rejects_undeclared_field() {
    let mut index = SearchIndex::new(
        "idx".to_string(),
        "title".to_string(),
        vec!["body".to_string()],
    );
    let mut doc = Document::new();
    doc.insert("author".to_string(), "nobody".to_string());
    assert_eq!(index.add_document(doc), Err(IndexError::ExtractionError));
    assert_eq!(index.num_docs(), 0);
}

#[test]
fn empty_query_matches_every_document() {
    let mut index = SearchIndex::new(
        "idx".to_string(),
        "title".to_string(),
        vec!["body".to_string()],
    );
    for (t, b) in [("a", "x"), ("b", "y")] {
        let mut doc = Document::new();
        doc.insert("title".to_string(), t.to_string());
        doc.insert("body".to_string(), b.to_string());
        index.add_document(doc).unwrap();
    }
    assert_eq!(index.search(&String::new()), vec!["a".to_string(), "b".to_string()]);
}

#[test]
fn commit_with_zero_staged_documents_is_a_no_op() {
    let index = SearchIndex::new(
        "idx".to_string(),
        "title".to_string(),
        vec!["body".to_string()],
    );
    let batch = BatchIndexer::new(index);
    let index = batch.commit();
    assert_eq!(index.num_docs(), 0);

    // Also after a non-empty batch has already been committed.
    let mut batch = BatchIndexer::new(index);
    let mut doc = Document::new();
    doc.insert("body".to_string(), "something".to_string());
    batch.add_document(doc).unwrap();
    let index = batch.commit();
    assert_eq!(index.num_docs(), 1);
    let batch = BatchIndexer::new(index);
    let index = batch.commit();
    assert_eq!(index.num_docs(), 1);
}

#[test]
fn staged_documents_become_searchable_only_at_commit() {
    let index = SearchIndex::new(
        "idx".to_string(),
        "title".to_string(),
        vec!["body".to_string()],
    );
    let mut batch = BatchIndexer::new(index);
    let mut doc = Document::new();
    doc.insert("title".to_string(), "staged".to_string());
    doc.insert("body".to_string(), "pending text".to_string());
    batch.add_document(doc).unwrap();
    assert_eq!(batch.num_staged(), 1);

    let index = batch.commit();
    assert_eq!(index.num_docs(), 1);
    assert_eq!(index.search(&"pending".to_string()), vec!["staged".to_string()]);
}

#[test]
fn null_cell_yields_the_literal_text_none() {
    let table = TextTable::new(
        vec![
            text_column("title", vec![Some("t1")]),
            text_column("body", vec![None]),
        ],
        1,
    )
    .unwrap();
    let index = SearchIndex::new(
        "idx".to_string(),
        "title".to_string(),
        vec!["title".to_string(), "body".to_string()],
    );
    let (index, result) = table.index_collection(index);
    result.unwrap();
    assert_eq!(index.num_docs(), 1);
    // The missing body cell was stored as the literal text "None".
    assert_eq!(index.search(&"None".to_string()), vec!["t1".to_string()]);
}

#[test]
fn undeclared_and_non_text_columns_are_excluded() {
    let table = TextTable::new(
        vec![
            text_column("title", vec![Some("t1")]),
            text_column("body", vec![Some("searchable text")]),
            text_column("secret", vec![Some("hidden text")]),
            Column { name: "count".to_string(), cells: ColumnCells::Other },
        ],
        1,
    )
    .unwrap();
    let index = SearchIndex::new(
        "idx".to_string(),
        "title".to_string(),
        vec!["title".to_string(), "body".to_string()],
    );
    let (index, result) = table.index_collection(index);
    result.unwrap();
    // The undeclared text column's value is absent from the document.
    assert_eq!(index.search(&"hidden".to_string()), Vec::<String>::new());
    assert_eq!(index.search(&"searchable".to_string()), vec!["t1".to_string()]);
}

#[test]
fn table_with_unequal_column_lengths_is_rejected() {
    let table = TextTable::new(
        vec![
            text_column("title", vec![Some("t1"), Some("t2")]),
            text_column("body", vec![Some("b1")]),
        ],
        2,
    );
    assert!(table.is_none());
}

#[test]
fn table_with_duplicate_column_names_is_rejected() {
    let table = TextTable::new(
        vec![
            text_column("title", vec![Some("t1")]),
            text_column("title", vec![Some("t2")]),
        ],
        1,
    );
    assert!(table.is_none());
}

#[test]
fn row_documents_extracts_every_text_column() {
    let table = TextTable::new(
        vec![
            text_column("title", vec![Some("t1"), Some("t2")]),
            text_column("body", vec![Some("b1"), None]),
            Column { name: "count".to_string(), cells: ColumnCells::Other },
        ],
        2,
    )
    .unwrap();
    let docs = table.row_documents();
    assert_eq!(docs.len(), 2);
    assert_eq!(docs[0].get(&"title".to_string()), Some(&"t1".to_string()));
    assert_eq!(docs[0].get(&"body".to_string()), Some(&"b1".to_string()));
    assert_eq!(docs[0].get(&"count".to_string()), None);
    assert_eq!(docs[1].get(&"body".to_string()), Some(&"None".to_string()));
}

#[test]
fn file_collection_indexes_name_and_contents() {
    let files = FileCollection::new(vec![
        FileRecord {
            path: "a.txt".to_string(),
            contents: "alpha words".to_string(),
        },
        FileRecord {
            path: "b.txt".to_string(),
            contents: "beta words".to_string(),
        },
    ]);
    let index = SearchIndex::new(
        "files".to_string(),
        "name".to_string(),
        vec!["contents".to_string()],
    );
    let (index, result) = files.index_collection(index);
    result.unwrap();
    assert_eq!(index.num_docs(), 2);
    assert_eq!(index.search(&"beta".to_string()), vec!["b.txt".to_string()]);
    assert_eq!(
        index.search(&"words".to_string()),
        vec!["a.txt".to_string(), "b.txt".to_string()]
    );
}

#[test]
fn file_collection_fails_against_mismatched_schema() {
    let files = FileCollection::new(vec![FileRecord {
        path: "a.txt".to_string(),
        contents: "alpha".to_string(),
    }]);
    let index = SearchIndex::new(
        "idx".to_string(),
        "title".to_string(),
        vec!["body".to_string()],
    );
    let (index, result) = files.index_collection(index);
    assert_eq!(result, Err(IndexError::ExtractionError));
    // No partial commit: the index is unchanged.
    assert_eq!(index.num_docs(), 0);
}

#[test]
fn document_insert_replaces_existing_value() {
    let mut doc = Document::new();
    doc.insert("title".to_string(), "first".to_string());
    doc.insert("title".to_string(), "second".to_string());
    assert_eq!(doc.num_fields(), 1);
    assert_eq!(doc.get(&"title".to_string()), Some(&"second".to_string()));
    assert_eq!(doc.get(&"missing".to_string()), None);
}
