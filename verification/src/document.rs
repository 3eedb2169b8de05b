//! Documents: mappings from field names to single text values, the unit
//! that is staged into and returned from a search index.

use vstd::prelude::*;

verus! {

/// One named text field of a document.
pub struct DocField {
    pub name: String,
    pub value: String,
}

/// A mapping from field name to text value. Field names are unique; a later
/// insertion under an existing name replaces the old value.
pub struct Document {
    fields: Vec<DocField>,
}

/// The mapping that a list of fields denotes, later entries winning.
pub open spec fn fields_map(fields: Seq<DocField>) -> Map<Seq<char>, Seq<char>>
    decreases fields.len(),
{
    if fields.len() == 0 {
        Map::empty()
    } else {
        fields_map(fields.drop_last()).insert(fields.last().name@, fields.last().value@)
    }
}

/// Field names are pairwise distinct.
pub open spec fn fields_unique(fields: Seq<DocField>) -> bool {
    forall|i: int, j: int|
        0 <= i < j < fields.len() ==> #[trigger] fields[i].name@ != #[trigger] fields[j].name@
}

/// A key is in the denoted mapping exactly when some entry carries it.
pub proof fn lemma_fields_map_key(fields: Seq<DocField>, k: Seq<char>)
    ensures
        fields_map(fields).contains_key(k) <==> exists|i: int|
            0 <= i < fields.len() && #[trigger] fields[i].name@ == k,
    decreases fields.len(),
{
    if fields.len() > 0 {
        lemma_fields_map_key(fields.drop_last(), k);
        if fields.last().name@ == k {
            assert(fields[fields.len() - 1].name@ == k);
        } else if fields_map(fields).contains_key(k) {
            let i = choose|i: int| 0 <= i < fields.drop_last().len() && #[trigger] fields.drop_last()[i].name@ == k;
            assert(fields[i].name@ == k);
        } else {
            assert forall|i: int| 0 <= i < fields.len() && #[trigger] fields[i].name@ == k implies false by {
                assert(fields.drop_last()[i].name@ == k);
            }
        }
    }
}

/// For unique names, the entry at position `i` gives the mapping's value at
/// its name.
pub proof fn lemma_fields_map_value(fields: Seq<DocField>, i: int)
    requires
        fields_unique(fields),
        0 <= i < fields.len(),
    ensures
        fields_map(fields).contains_key(fields[i].name@),
        fields_map(fields)[fields[i].name@] == fields[i].value@,
    decreases fields.len(),
{
    if i == fields.len() - 1 {
    } else {
        lemma_fields_map_value(fields.drop_last(), i);
        assert(fields.drop_last()[i] == fields[i]);
    }
}

/// For unique names, replacing the value at position `i` updates the
/// denoted mapping at that entry's name.
proof fn lemma_fields_map_update(fields: Seq<DocField>, i: int, f: DocField)
    requires
        fields_unique(fields),
        0 <= i < fields.len(),
        fields[i].name@ == f.name@,
    ensures
        fields_map(fields.update(i, f)) == fields_map(fields).insert(f.name@, f.value@),
    decreases fields.len(),
{
    let updated = fields.update(i, f);
    if i == fields.len() - 1 {
        assert(updated.drop_last() =~= fields.drop_last());
        assert(fields_map(updated) =~= fields_map(fields).insert(f.name@, f.value@));
    } else {
        lemma_fields_map_update(fields.drop_last(), i, f);
        assert(updated.drop_last() =~= fields.drop_last().update(i, f));
        assert(updated.last() == fields.last());
        assert(fields_map(updated) == fields_map(fields.drop_last().update(i, f)).insert(
            fields.last().name@,
            fields.last().value@,
        ));
        assert(fields_map(updated) =~= fields_map(fields).insert(f.name@, f.value@));
    }
}

impl Document {
    /// Names of the fields are pairwise distinct.
    pub open spec fn wf(&self) -> bool {
        fields_unique(self.entries())
    }

    /// The sequence of fields, in insertion order.
    pub closed spec fn entries(&self) -> Seq<DocField> {
        self.fields@
    }

    /// The empty document.
    pub fn new() -> (d: Document)
        ensures
            d.wf(),
            d@ == Map::<Seq<char>, Seq<char>>::empty(),
            d.entries() == Seq::<DocField>::empty(),
    {
        Document { fields: Vec::new() }
    }

    /// Sets `name` to `value`, replacing any earlier value under that name.
    pub fn insert(&mut self, name: String, value: String)
        requires
            old(self).wf(),
        ensures
            final(self).wf(),
            final(self)@ == old(self)@.insert(name@, value@),
    {
        let mut i: usize = 0;
        while i < self.fields.len()
            invariant
                old(self).wf(),
                self == old(self),
                i <= self.fields@.len(),
                forall|k: int| 0 <= k < i ==> #[trigger] self.fields@[k].name@ != name@,
            decreases self.fields@.len() - i,
        {
            if self.fields[i].name == name {
                let f = DocField { name, value };
                proof {
                    lemma_fields_map_update(self.fields@, i as int, f);
                }
                self.fields.remove(i);
                self.fields.insert(i, f);
                proof {
                    assert(self.fields@ =~= old(self).fields@.update(i as int, f));
                }
                return ;
            }
            i = i + 1;
        }
        self.fields.push(DocField { name, value });
        proof {
            assert(self.fields@.drop_last() =~= old(self).fields@);
        }
    }

    /// How many fields the document carries.
    pub fn num_fields(&self) -> (n: usize)
        ensures
            n == self.entries().len(),
    {
        self.fields.len()
    }

    /// The field at position `i`, in insertion order.
    pub fn field_at(&self, i: usize) -> (f: &DocField)
        requires
            i < self.entries().len(),
        ensures
            *f == self.entries()[i as int],
    {
        &self.fields[i]
    }

    /// Returns the value stored under `name`, if any.
    pub fn get(&self, name: &String) -> (r: Option<&String>)
        requires
            self.wf(),
        ensures
            match r {
                Some(v) => self@.contains_key(name@) && self@[name@] == v@,
                None => !self@.contains_key(name@),
            },
    {
        let mut i: usize = 0;
        while i < self.fields.len()
            invariant
                self.wf(),
                i <= self.fields@.len(),
                forall|k: int| 0 <= k < i ==> #[trigger] self.fields@[k].name@ != name@,
            decreases self.fields@.len() - i,
        {
            if self.fields[i].name == *name {
                proof {
                    lemma_fields_map_value(self.fields@, i as int);
                }
                return Some(&self.fields[i].value);
            }
            i = i + 1;
        }
        proof {
            lemma_fields_map_key(self.fields@, name@);
        }
        None
    }
}

impl View for Document {
    type V = Map<Seq<char>, Seq<char>>;

    open spec fn view(&self) -> Map<Seq<char>, Seq<char>> {
        fields_map(self.entries())
    }
}

} // verus!
