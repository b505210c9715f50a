//! Records of the table and of a source batch: the merge key and the
//! two bookkeeping timestamps, with the spec-level vocabulary for
//! looking rows up by key.

use vstd::prelude::*;

verus! {

/// One record: the merge key and the two bookkeeping timestamps
/// (microseconds since the epoch).
#[derive(Debug)]
pub struct Row {
    pub id: String,
    pub created_at: i64,
    pub updated_at: i64,
}

/// The mathematical reading of a record.
pub struct RowModel {
    pub id: Seq<char>,
    pub created_at: int,
    pub updated_at: int,
}

impl View for Row {
    type V = RowModel;

    open spec fn view(&self) -> RowModel {
        RowModel {
            id: self.id@,
            created_at: self.created_at as int,
            updated_at: self.updated_at as int,
        }
    }
}

impl Clone for Row {
    /// Cloning a record keeps its reading.
    fn clone(&self) -> (r: Row)
        ensures
            r@ == self@,
    {
        Row { id: self.id.clone(), created_at: self.created_at, updated_at: self.updated_at }
    }
}

/// The reading of a whole row list.
pub open spec fn row_views(rows: Seq<Row>) -> Seq<RowModel> {
    rows.map_values(|r: Row| r@)
}

/// Some row of `rows` carries the merge key `k`.
pub open spec fn has_key(rows: Seq<RowModel>, k: Seq<char>) -> bool {
    exists|i: int| 0 <= i < rows.len() && (#[trigger] rows[i]).id == k
}

/// The row of `rows` carrying the merge key `k`; meaningful when the
/// keys of `rows` are distinct and `k` is among them.
pub open spec fn row_with_key(rows: Seq<RowModel>, k: Seq<char>) -> RowModel {
    rows[choose|i: int| 0 <= i < rows.len() && (#[trigger] rows[i]).id == k]
}

/// No two rows share a merge key.
pub open spec fn distinct_keys(rows: Seq<RowModel>) -> bool {
    forall|i: int, j: int| 0 <= i < j < rows.len() ==> rows[i].id != rows[j].id
}

/// Under distinct keys, any row found at an index with key `k` is the
/// row `row_with_key` denotes.
pub proof fn lemma_row_with_key(rows: Seq<RowModel>, k: Seq<char>, i: int)
    requires
        distinct_keys(rows),
        0 <= i < rows.len(),
        rows[i].id == k,
    ensures
        has_key(rows, k),
        row_with_key(rows, k) == rows[i],
{
    assert(has_key(rows, k));
    let j = choose|j: int| 0 <= j < rows.len() && (#[trigger] rows[j]).id == k;
    if i != j {
        assert(rows[i].id != rows[j].id);
        assert(false);
    }
}

/// Finds the first row carrying the merge key `key`, if any.
pub fn find_row(rows: &Vec<Row>, key: &String) -> (r: Option<usize>)
    ensures
        match r {
            Some(i) => i < rows@.len() && row_views(rows@)[i as int].id == key@,
            None => !has_key(row_views(rows@), key@),
        },
{
    let mut i: usize = 0;
    while i < rows.len()
        invariant
            i <= rows@.len(),
            forall|j: int| 0 <= j < i ==> row_views(rows@)[j].id != key@,
        decreases rows@.len() - i,
    {
        if rows[i].id == *key {
            return Some(i);
        }
        i += 1;
    }
    None
}

} // verus!
