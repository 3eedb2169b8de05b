use brt_core::IndexError;
use brt_core::document::Document;
use brt_core::registry::IndexRegistry;
use brt_core::table::{Column, ColumnCells, TextTable};

fn text_column(name: &str, cells: Vec<Option<&str>>) -> Column {
    Column {
        name: name.to_string(),
        cells: ColumnCells::Text(cells.into_iter().map(|c| c.map(|s| s.to_string())).collect()),
    }
}

fn sample_doc(title: &str, body: &str) -> Document {
    let mut doc = Document::new();
    doc.insert("title".to_string(), title.to_string());
    doc.insert("body".to_string(), body.to_string());
    doc
}

#[test]
fn operations_on_unknown_names_fail_with_not_found() {
    let mut registry = IndexRegistry::new();
    assert_eq!(
        registry.search("nope".to_string(), "q".to_string()),
        Err(IndexError::NotFound)
    );
    assert_eq!(
        registry.index_document("nope".to_string(), sample_doc("t", "b")),
        Err(IndexError::NotFound)
    );
    let table = TextTable::new(vec![text_column("body", vec![Some("x")])], 1).unwrap();
    assert_eq!(
        registry.index_bulk("nope".to_string(), &table),
        Err(IndexError::NotFound)
    );
}

#[test]
fn initialized_index_is_listed_with_its_fields() {
    let mut registry = IndexRegistry::new();
    registry
        .initialize_index(
            "articles".to_string(),
            "title".to_string(),
            vec!["body".to_string(), "summary".to_string()],
        )
        .unwrap();
    let names = registry.get_index_names();
    assert_eq!(names, vec!["articles".to_string()]);
    // The new index answers searches (with no documents yet).
    assert_eq!(
        registry.search("articles".to_string(), "q".to_string()),
        Ok(Vec::new())
    );
}

#[test]
fn registry_round_trip_search_finds_indexed_document() {
    let mut registry = IndexRegistry::new();
    registry
        .initialize_index(
            "articles".to_string(),
            "title".to_string(),
            vec!["body".to_string()],
        )
        .unwrap();
    registry
        .index_document(
            "articles".to_string(),
            sample_doc("Doc A", "an unmistakable zebra appears"),
        )
        .unwrap();
    let results = registry
        .search("articles".to_string(), "zebra".to_string())
        .unwrap();
    assert_eq!(results, vec!["Doc A".to_string()]);
}

#[test]
fn index_document_rejects_undeclared_field_through_registry() {
    let mut registry = IndexRegistry::new();
    registry
        .initialize_index(
            "articles".to_string(),
            "title".to_string(),
            vec!["body".to_string()],
        )
        .unwrap();
    let mut doc = Document::new();
    doc.insert("author".to_string(), "nobody".to_string());
    assert_eq!(
        registry.index_document("articles".to_string(), doc),
        Err(IndexError::ExtractionError)
    );
}

#[test]
fn bulk_ingestion_commits_one_document_per_row() {
    let mut registry = IndexRegistry::new();
    registry
        .initialize_index(
            "test_index".to_string(),
            "title".to_string(),
            vec!["title".to_string(), "body".to_string()],
        )
        .unwrap();
    let table = TextTable::new(
        vec![
            text_column("title", vec![Some("test title"), Some("test title 2")]),
            text_column("body", vec![Some("test body"), Some("test body 2")]),
        ],
        2,
    )
    .unwrap();
    registry.index_bulk("test_index".to_string(), &table).unwrap();
    let results = registry
        .search("test_index".to_string(), "test body".to_string())
        .unwrap();
    assert_eq!(
        results,
        vec!["test title".to_string(), "test title 2".to_string()]
    );
}

#[test]
fn reinitializing_a_name_replaces_the_index() {
    let mut registry = IndexRegistry::new();
    registry
        .initialize_index(
            "articles".to_string(),
            "title".to_string(),
            vec!["body".to_string()],
        )
        .unwrap();
    registry
        .index_document("articles".to_string(), sample_doc("Doc A", "old text"))
        .unwrap();
    registry
        .initialize_index(
            "articles".to_string(),
            "title".to_string(),
            vec!["body".to_string()],
        )
        .unwrap();
    // The replacement is empty: the earlier document is gone.
    assert_eq!(
        registry.search("articles".to_string(), "old".to_string()),
        Ok(Vec::new())
    );
    assert_eq!(registry.get_index_names(), vec!["articles".to_string()]);
}

#[test]
fn distinct_indices_are_independent() {
    let mut registry = IndexRegistry::new();
    for name in ["left", "right"] {
        registry
            .initialize_index(
                name.to_string(),
                "title".to_string(),
                vec!["body".to_string()],
            )
            .unwrap();
    }
    registry
        .index_document("left".to_string(), sample_doc("L", "only in left"))
        .unwrap();
    registry
        .index_document("right".to_string(), sample_doc("R", "only in right"))
        .unwrap();
    assert_eq!(
        registry.search("left".to_string(), "only".to_string()),
        Ok(vec!["L".to_string()])
    );
    assert_eq!(
        registry.search("right".to_string(), "only".to_string()),
        Ok(vec!["R".to_string()])
    );
    let mut names = registry.get_index_names();
    names.sort();
    assert_eq!(names, vec!["left".to_string(), "right".to_string()]);
}
