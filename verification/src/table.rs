//! The tabular bulk source: a table of named columns whose text cells are
//! extracted row by row into documents. Only text columns whose name is
//! among an index's declared indexed fields contribute; a missing cell
//! yields the literal text `None` rather than being omitted.

use vstd::prelude::*;

use crate::IndexError;
use crate::document::Document;
use crate::index::{SearchIndex, BatchIndexer, schema_ok};
use crate::indexable::IndexableCollection;

verus! {

/// The cells of one column: a text column holds one optional text value
/// per row; any other column type carries no extractable text.
pub enum ColumnCells {
    /// A text column, one optional value per row.
    Text(Vec<Option<String>>),
    /// A column of some non-text type; its values are never extracted.
    Other,
}

/// One named column of a table.
pub struct Column {
    pub name: String,
    pub cells: ColumnCells,
}

/// The mathematical state of one column: its name and, for a text column,
/// its cell texts.
#[verifier::ext_equal]
pub ghost struct ColumnModel {
    /// The column's name.
    pub name: Seq<char>,
    /// `Some` with one optional text per row for a text column; `None` for
    /// a column of any other type.
    pub cells: Option<Seq<Option<Seq<char>>>>,
}

impl View for Column {
    type V = ColumnModel;

    open spec fn view(&self) -> ColumnModel {
        ColumnModel {
            name: self.name@,
            cells: match self.cells {
                ColumnCells::Text(cells) => Some(
                    Seq::new(
                        cells@.len(),
                        |i: int|
                            match cells@[i] {
                                Some(s) => Some(s@),
                                None => None,
                            },
                    ),
                ),
                ColumnCells::Other => None,
            },
        }
    }
}

/// The mathematical state of a table.
#[verifier::ext_equal]
pub ghost struct TableModel {
    /// The columns, in table order.
    pub columns: Seq<ColumnModel>,
    /// The number of rows.
    pub height: nat,
}

/// The views of the columns held in `v`.
pub open spec fn column_views(v: Seq<Column>) -> Seq<ColumnModel> {
    Seq::new(v.len(), |i: int| v[i]@)
}

/// Column names are pairwise distinct and every text column has exactly
/// `height` cells.
pub open spec fn columns_wf(columns: Seq<ColumnModel>, height: nat) -> bool {
    &&& forall|i: int, j: int|
        0 <= i < j < columns.len() ==> (#[trigger] columns[i]).name != (
        #[trigger] columns[j]).name
    &&& forall|i: int|
        0 <= i < columns.len() ==> ((#[trigger] columns[i]).cells matches Some(cells)
            ==> cells.len() == height)
}

/// A column contributes to an index declaring `fields` exactly when it is
/// a text column named by one of the fields.
pub open spec fn is_selected(c: ColumnModel, fields: Seq<Seq<char>>) -> bool {
    c.cells is Some && fields.contains(c.name)
}

/// The columns that contribute, in table order.
pub open spec fn selected_columns(
    columns: Seq<ColumnModel>,
    fields: Seq<Seq<char>>,
) -> Seq<ColumnModel>
    decreases columns.len(),
{
    if columns.len() == 0 {
        Seq::empty()
    } else {
        let rest = selected_columns(columns.drop_last(), fields);
        if is_selected(columns.last(), fields) {
            rest.push(columns.last())
        } else {
            rest
        }
    }
}

/// The text a cell contributes: its value, or the literal text `None` for
/// a missing cell.
pub open spec fn cell_text(cell: Option<Seq<char>>) -> Seq<char> {
    match cell {
        Some(v) => v,
        None => "None"@,
    }
}

/// The document extracted from row `row` of the given (text) columns.
pub open spec fn row_doc(columns: Seq<ColumnModel>, row: int) -> Map<Seq<char>, Seq<char>>
    decreases columns.len(),
{
    if columns.len() == 0 {
        Map::empty()
    } else {
        row_doc(columns.drop_last(), row).insert(
            columns.last().name,
            cell_text(
                match columns.last().cells {
                    Some(cells) => cells[row],
                    None => None,
                },
            ),
        )
    }
}

/// The documents a table yields for an index declaring `fields`: one per
/// row, in row order, over the contributing columns.
pub open spec fn table_docs(t: TableModel, fields: Seq<Seq<char>>) -> Seq<
    Map<Seq<char>, Seq<char>>,
> {
    Seq::new(t.height, |row: int| row_doc(selected_columns(t.columns, fields), row))
}

/// Every contributing column is a text column named by a declared field.
proof fn lemma_selected_are_selected(columns: Seq<ColumnModel>, fields: Seq<Seq<char>>)
    ensures
        forall|k: int|
            0 <= k < selected_columns(columns, fields).len() ==> is_selected(
                #[trigger] selected_columns(columns, fields)[k],
                fields,
            ),
    decreases columns.len(),
{
    if columns.len() > 0 {
        lemma_selected_are_selected(columns.drop_last(), fields);
        let rest = selected_columns(columns.drop_last(), fields);
        assert forall|k: int|
            0 <= k < selected_columns(columns, fields).len() implies is_selected(
            #[trigger] selected_columns(columns, fields)[k],
            fields,
        ) by {
            if k < rest.len() {
                assert(selected_columns(columns, fields)[k] == rest[k]);
            }
        }
    }
}

/// Every key of a row document is the name of one of its columns.
proof fn lemma_row_doc_keys(columns: Seq<ColumnModel>, row: int, k: Seq<char>)
    requires
        row_doc(columns, row).contains_key(k),
    ensures
        exists|j: int| 0 <= j < columns.len() && (#[trigger] columns[j]).name == k,
    decreases columns.len(),
{
    if columns.len() > 0 {
        if columns.last().name == k {
            assert(columns[columns.len() - 1].name == k);
        } else {
            lemma_row_doc_keys(columns.drop_last(), row, k);
            let j = choose|j: int|
                0 <= j < columns.drop_last().len() && (#[trigger] columns.drop_last()[j]).name
                    == k;
            assert(columns[j].name == k);
        }
    }
}

/// The text columns of a table, in table order, whatever their names.
pub open spec fn text_columns(columns: Seq<ColumnModel>) -> Seq<ColumnModel>
    decreases columns.len(),
{
    if columns.len() == 0 {
        Seq::empty()
    } else {
        let rest = text_columns(columns.drop_last());
        if columns.last().cells is Some {
            rest.push(columns.last())
        } else {
            rest
        }
    }
}

/// Every text column of a table is a text column.
proof fn lemma_text_are_text(columns: Seq<ColumnModel>)
    ensures
        forall|k: int|
            0 <= k < text_columns(columns).len() ==> (#[trigger] text_columns(columns)[k]).cells
                is Some,
    decreases columns.len(),
{
    if columns.len() > 0 {
        lemma_text_are_text(columns.drop_last());
        let rest = text_columns(columns.drop_last());
        assert forall|k: int|
            0 <= k < text_columns(columns).len() implies (#[trigger] text_columns(
            columns,
        )[k]).cells is Some by {
            if k < rest.len() {
                assert(text_columns(columns)[k] == rest[k]);
            }
        }
    }
}

/// A table of rows to be indexed in bulk.
pub struct TextTable {
    columns: Vec<Column>,
    height: usize,
}

impl View for TextTable {
    type V = TableModel;

    closed spec fn view(&self) -> TableModel {
        TableModel { columns: column_views(self.columns@), height: self.height as nat }
    }
}

impl TextTable {
    /// The table's columns are well formed for its height.
    pub open spec fn wf(&self) -> bool {
        columns_wf(self@.columns, self@.height)
    }

    /// Wraps columns and a row count as a table. The table is returned
    /// exactly when the columns are valid: names pairwise distinct and
    /// every text column holding one cell per row.
    pub fn new(columns: Vec<Column>, height: usize) -> (r: Option<TextTable>)
        ensures
            r is Some <==> columns_wf(column_views(columns@), height as nat),
            r is Some ==> r->0.wf() && r->0@ == (TableModel {
                columns: column_views(columns@),
                height: height as nat,
            }),
    {
        let mut i: usize = 0;
        #[verifier::loop_isolation(false)]
        while i < columns.len()
            invariant
                i <= columns@.len(),
                forall|a: int, b: int|
                    0 <= a < b < i ==> (#[trigger] column_views(columns@)[a]).name != (
                    #[trigger] column_views(columns@)[b]).name,
                forall|a: int|
                    0 <= a < i ==> ((#[trigger] column_views(columns@)[a]).cells matches Some(
                        cells,
                    ) ==> cells.len() == height as nat),
            decreases columns@.len() - i,
        {
            match &columns[i].cells {
                ColumnCells::Text(cells) => {
                    if cells.len() != height {
                        proof {
                            assert((#[trigger] column_views(columns@)[i as int]).cells
                                == Some(
                                Seq::new(
                                    cells@.len(),
                                    |r: int|
                                        match cells@[r] {
                                            Some(s) => Some(s@),
                                            None => None,
                                        },
                                ),
                            ));
                            assert(!columns_wf(column_views(columns@), height as nat));
                        }
                        return None;
                    }
                },
                ColumnCells::Other => {},
            }
            let mut j: usize = 0;
            #[verifier::loop_isolation(false)]
            while j < i
                invariant
                    j <= i < columns@.len(),
                    forall|b: int|
                        0 <= b < j ==> (#[trigger] column_views(columns@)[b]).name != column_views(
                            columns@,
                        )[i as int].name,
                decreases i - j,
            {
                if columns[j].name == columns[i].name {
                    proof {
                        assert((#[trigger] column_views(columns@)[j as int]).name == (
                        #[trigger] column_views(columns@)[i as int]).name);
                        assert(!columns_wf(column_views(columns@), height as nat));
                    }
                    return None;
                }
                j = j + 1;
            }
            i = i + 1;
        }
        Some(TextTable { columns, height })
    }

    /// The documents of all rows over every text column, in row order:
    /// each row yields one document mapping each text column's name to its
    /// cell, a missing cell to the literal text `None`.
    pub fn row_documents(&self) -> (docs: Vec<Document>)
        requires
            self.wf(),
        ensures
            docs@.len() == self@.height,
            forall|r: int|
                0 <= r < docs@.len() ==> (#[trigger] docs@[r]).wf() && docs@[r]@ == row_doc(
                    text_columns(self@.columns),
                    r,
                ),
    {
        let ghost cols = text_columns(self@.columns);

        // Collect the text columns.
        let mut sel: Vec<usize> = Vec::new();
        let mut j: usize = 0;
        #[verifier::loop_isolation(false)]
        while j < self.columns.len()
            invariant
                j <= self.columns@.len(),
                forall|k: int|
                    0 <= k < sel@.len() ==> (#[trigger] sel@[k]) < self.columns@.len(),
                Seq::new(sel@.len(), |k: int| self@.columns[sel@[k] as int]) =~= text_columns(
                    self@.columns.take(j as int),
                ),
            decreases self.columns@.len() - j,
        {
            proof {
                assert(self@.columns.take(j + 1).drop_last() =~= self@.columns.take(j as int));
                assert(self@.columns.take(j + 1).last() == self@.columns[j as int]);
            }
            match &self.columns[j].cells {
                ColumnCells::Text(_) => {
                    sel.push(j);
                    proof {
                        assert(Seq::new(sel@.len(), |k: int| self@.columns[sel@[k] as int])
                            =~= text_columns(self@.columns.take(j + 1)));
                    }
                },
                ColumnCells::Other => {},
            }
            j = j + 1;
        }
        proof {
            assert(self@.columns.take(self.columns@.len() as int) =~= self@.columns);
            lemma_text_are_text(self@.columns);
        }

        // Build one document per row.
        let mut docs: Vec<Document> = Vec::new();
        let mut row: usize = 0;
        #[verifier::loop_isolation(false)]
        while row < self.height
            invariant
                row <= self.height,
                docs@.len() == row,
                forall|r: int|
                    0 <= r < row ==> (#[trigger] docs@[r]).wf() && docs@[r]@ == row_doc(cols, r),
            decreases self.height - row,
        {
            let mut doc = Document::new();
            let mut k: usize = 0;
            #[verifier::loop_isolation(false)]
            while k < sel.len()
                invariant
                    k <= sel@.len(),
                    doc.wf(),
                    doc@ =~= row_doc(cols.take(k as int), row as int),
                decreases sel@.len() - k,
            {
                let c = sel[k];
                proof {
                    assert(cols.take(k + 1).drop_last() =~= cols.take(k as int));
                    assert(cols[k as int] == self@.columns[c as int]);
                }
                match &self.columns[c].cells {
                    ColumnCells::Text(cells) => {
                        let value = match &cells[row] {
                            Some(s) => s.clone(),
                            None => "None".to_owned(),
                        };
                        doc.insert(self.columns[c].name.clone(), value);
                    },
                    ColumnCells::Other => {
                        proof {
                            assert(false);
                        }
                    },
                }
                k = k + 1;
            }
            proof {
                assert(cols.take(sel@.len() as int) =~= cols);
            }
            docs.push(doc);
            row = row + 1;
        }
        docs
    }
}

impl IndexableCollection for TextTable {
    open spec fn src_wf(&self) -> bool {
        self.wf()
    }

    open spec fn extracted(&self, fields: Seq<Seq<char>>) -> Seq<Map<Seq<char>, Seq<char>>> {
        table_docs(self@, fields)
    }

    /// Extraction keeps only declared fields, so a table can always be
    /// indexed.
    open spec fn can_index(&self, fields: Seq<Seq<char>>, identity: Seq<char>) -> bool {
        true
    }

    fn index_collection(&self, index: SearchIndex) -> (res: (
        SearchIndex,
        Result<(), IndexError>,
    )) {
        let ghost m = index@;
        let fields = index.field_names();
        let ghost sel_models = selected_columns(self@.columns, m.fields);

        // Select the text columns named by the index's declared fields.
        let mut sel: Vec<usize> = Vec::new();
        let mut j: usize = 0;
        #[verifier::loop_isolation(false)]
        while j < self.columns.len()
            invariant
                j <= self.columns@.len(),
                forall|k: int|
                    0 <= k < sel@.len() ==> (#[trigger] sel@[k]) < self.columns@.len(),
                Seq::new(sel@.len(), |k: int| self@.columns[sel@[k] as int]) =~= selected_columns(
                    self@.columns.take(j as int),
                    m.fields,
                ),
            decreases self.columns@.len() - j,
        {
            let keep = match &self.columns[j].cells {
                ColumnCells::Text(_) => crate::text::contains_string(&fields, &self.columns[j].name),
                ColumnCells::Other => false,
            };
            proof {
                assert(self@.columns.take(j + 1).drop_last() =~= self@.columns.take(j as int));
                assert(self@.columns.take(j + 1).last() == self@.columns[j as int]);
            }
            if keep {
                sel.push(j);
                proof {
                    assert(Seq::new(sel@.len(), |k: int| self@.columns[sel@[k] as int])
                        =~= selected_columns(self@.columns.take(j + 1), m.fields));
                }
            }
            j = j + 1;
        }
        proof {
            assert(self@.columns.take(self.columns@.len() as int) =~= self@.columns);
        }

        // Extract one document per row and stage it.
        proof {
            lemma_selected_are_selected(self@.columns, m.fields);
        }
        let mut b = BatchIndexer::new(index);
        let mut row: usize = 0;
        #[verifier::loop_isolation(false)]
        while row < self.height
            invariant
                b.wf(),
                b@.index == m,
                row <= self.height,
                b@.staged =~= Seq::new(row as nat, |r: int| row_doc(sel_models, r)),
            decreases self.height - row,
        {
            let mut doc = Document::new();
            let mut k: usize = 0;
            #[verifier::loop_isolation(false)]
            while k < sel.len()
                invariant
                    k <= sel@.len(),
                    doc.wf(),
                    doc@ =~= row_doc(sel_models.take(k as int), row as int),
                decreases sel@.len() - k,
            {
                let c = sel[k];
                proof {
                    assert(sel_models.take(k + 1).drop_last() =~= sel_models.take(k as int));
                    assert(sel_models[k as int] == self@.columns[c as int]);
                }
                match &self.columns[c].cells {
                    ColumnCells::Text(cells) => {
                        let value = match &cells[row] {
                            Some(s) => s.clone(),
                            None => "None".to_owned(),
                        };
                        doc.insert(self.columns[c].name.clone(), value);
                    },
                    ColumnCells::Other => {
                        proof {
                            assert(is_selected(sel_models[k as int], m.fields));
                            assert(false);
                        }
                    },
                }
                k = k + 1;
            }
            proof {
                assert(sel_models.take(sel@.len() as int) =~= sel_models);
                assert forall|key: Seq<char>| #[trigger] doc@.contains_key(key) implies m
                    .fields.contains(key) || key == m.identity by {
                    lemma_row_doc_keys(sel_models, row as int, key);
                    let jj = choose|jj: int|
                        0 <= jj < sel_models.len() && (#[trigger] sel_models[jj]).name == key;
                    assert(is_selected(sel_models[jj], m.fields));
                }
                assert(schema_ok(doc@, m.fields, m.identity));
            }
            let r = b.add_document(doc);
            proof {
                assert(r is Ok);
                assert(b@.staged =~= Seq::new((row + 1) as nat, |r: int| row_doc(sel_models, r)));
            }
            row = row + 1;
        }
        proof {
            assert(b@.staged =~= self.extracted(m.fields));
        }
        (b.commit(), Ok(()))
    }
}

} // verus!
