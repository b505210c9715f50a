//! The merge (upsert) vocabulary: what a predicate-driven merge of a
//! source batch into a target row set produces, row by row, and the
//! counts it reports. The commit protocol around it lives in the
//! store module.

use vstd::prelude::*;
use crate::row::{Row, RowModel, row_views, has_key, row_with_key, distinct_keys, find_row};

verus! {

/// The action taken on a target row a source row matches.
#[derive(Clone, Copy, Debug, PartialEq, Eq, Structural)]
pub enum MatchedAction {
    /// Replace the matched target row with the source row.
    UpdateAll,
    /// Leave the matched target row untouched.
    Skip,
}

/// The action taken on a source row no target row matches.
#[derive(Clone, Copy, Debug, PartialEq, Eq, Structural)]
pub enum NotMatchedAction {
    /// Append the source row to the table.
    Insert,
    /// Drop the source row.
    Skip,
}

/// An equality join predicate between a target column and an aliased
/// source column.
#[derive(Debug)]
pub struct JoinPredicate {
    pub target_column: String,
    pub source_column: String,
}

/// The counts a merge reports.
#[derive(Clone, Copy, Debug, PartialEq, Eq, Structural)]
pub struct MergeMetrics {
    pub rows_updated: usize,
    pub rows_inserted: usize,
}

/// The predicate this coordinator supports: equality between the
/// target's merge key column and the same column of the aliased
/// source.
pub open spec fn predicate_matches_key(
    target_column: Seq<char>,
    source_column: Seq<char>,
    alias: Seq<char>,
) -> bool {
    &&& target_column == "__id"@
    &&& source_column == alias + ".__id"@
}

/// Decides whether `predicate` is the supported key-equality
/// predicate for `source_alias`.
pub fn check_predicate(predicate: &JoinPredicate, source_alias: &str) -> (r: bool)
    ensures
        r == predicate_matches_key(
            predicate.target_column@,
            predicate.source_column@,
            source_alias@,
        ),
{
    let key: String = "__id".to_owned();
    let mut expected: String = source_alias.to_owned();
    expected.append(".__id");
    predicate.target_column == key && predicate.source_column == expected
}

/// The target rows after the matched-row action: each target row a
/// source row matches is replaced by that source row when updates are
/// on, and kept otherwise.
pub open spec fn updated_rows(
    target: Seq<RowModel>,
    source: Seq<RowModel>,
    do_update: bool,
) -> Seq<RowModel> {
    Seq::new(
        target.len(),
        |i: int|
            if do_update && has_key(source, target[i].id) {
                row_with_key(source, target[i].id)
            } else {
                target[i]
            },
    )
}

/// The source rows appended by the not-matched action: those whose
/// merge key no target row carries, in source order, when inserts are
/// on.
pub open spec fn inserted_rows(
    target: Seq<RowModel>,
    source: Seq<RowModel>,
    do_insert: bool,
) -> Seq<RowModel>
    decreases source.len(),
{
    if !do_insert || source.len() == 0 {
        Seq::empty()
    } else {
        let init = inserted_rows(target, source.drop_last(), do_insert);
        if !has_key(target, source.last().id) {
            init.push(source.last())
        } else {
            init
        }
    }
}

/// The complete row set a merge commits: the acted-on target rows
/// followed by the appended source rows.
pub open spec fn merged_rows(
    target: Seq<RowModel>,
    source: Seq<RowModel>,
    do_update: bool,
    do_insert: bool,
) -> Seq<RowModel> {
    updated_rows(target, source, do_update) + inserted_rows(target, source, do_insert)
}

/// How many target rows some source row matches.
pub open spec fn matched_count(target: Seq<RowModel>, source: Seq<RowModel>) -> int
    decreases target.len(),
{
    if target.len() == 0 {
        0
    } else {
        matched_count(target.drop_last(), source) + if has_key(source, target.last().id) {
            1int
        } else {
            0int
        }
    }
}

/// The updated-rows count a merge reports.
pub open spec fn updated_count(
    target: Seq<RowModel>,
    source: Seq<RowModel>,
    do_update: bool,
) -> int {
    if do_update {
        matched_count(target, source)
    } else {
        0
    }
}

/// The inserted-rows count a merge reports.
pub open spec fn inserted_count(
    target: Seq<RowModel>,
    source: Seq<RowModel>,
    do_insert: bool,
) -> int {
    inserted_rows(target, source, do_insert).len() as int
}

/// The first merge key, in scan order, that an earlier source row
/// already carries; `None` when the source keys are distinct.
pub open spec fn dup_from(rows: Seq<RowModel>, j: int) -> Option<Seq<char>>
    decreases rows.len() - j,
{
    if j < 0 || j >= rows.len() {
        None
    } else if has_key(rows.take(j), rows[j].id) {
        Some(rows[j].id)
    } else {
        dup_from(rows, j + 1)
    }
}

/// See `dup_from`.
pub open spec fn first_dup_key(rows: Seq<RowModel>) -> Option<Seq<char>> {
    dup_from(rows, 0)
}

/// Skipping clean positions does not change the first duplicate.
proof fn lemma_dup_from_skip(rows: Seq<RowModel>, p: int, j: int)
    requires
        0 <= p <= j <= rows.len(),
        forall|q: int| p <= q < j ==> !has_key(#[trigger] rows.take(q), rows[q].id),
    ensures
        dup_from(rows, p) == dup_from(rows, j),
    decreases j - p,
{
    if p < j {
        lemma_dup_from_skip(rows, p + 1, j);
    }
}

/// A duplicate found at position `j`, with every earlier position
/// clean, is the first duplicate.
proof fn lemma_dup_from_found(rows: Seq<RowModel>, j: int)
    requires
        0 <= j < rows.len(),
        forall|q: int| 0 <= q < j ==> !has_key(#[trigger] rows.take(q), rows[q].id),
        has_key(rows.take(j), rows[j].id),
    ensures
        first_dup_key(rows) == Some(rows[j].id),
{
    lemma_dup_from_skip(rows, 0, j);
}

/// The source keys are distinct exactly when no scan position finds
/// its key earlier.
proof fn lemma_distinct_iff_clean(rows: Seq<RowModel>)
    ensures
        distinct_keys(rows) <==> (forall|q: int|
            0 <= q < rows.len() ==> !has_key(#[trigger] rows.take(q), rows[q].id)),
{
    if distinct_keys(rows) {
        assert forall|q: int| 0 <= q < rows.len() implies !has_key(
            #[trigger] rows.take(q),
            rows[q].id,
        ) by {
            if has_key(rows.take(q), rows[q].id) {
                let i = choose|i: int|
                    0 <= i < rows.take(q).len() && (#[trigger] rows.take(q)[i]).id == rows[q].id;
                assert(rows[i].id == rows[q].id);
                assert(false);
            }
        }
    }
    if forall|q: int| 0 <= q < rows.len() ==> !has_key(#[trigger] rows.take(q), rows[q].id) {
        assert forall|i: int, j: int| 0 <= i < j < rows.len() implies rows[i].id != rows[j].id by {
            if rows[i].id == rows[j].id {
                assert(rows.take(j)[i] == rows[i]);
                assert(has_key(rows.take(j), rows[j].id));
                assert(false);
            }
        }
    }
}

/// `first_dup_key` answers `None` exactly on distinct keys, and any
/// key it answers is carried by two source rows.
pub proof fn lemma_first_dup_key(rows: Seq<RowModel>)
    ensures
        first_dup_key(rows) is None <==> distinct_keys(rows),
        first_dup_key(rows) matches Some(k) ==> exists|i: int, j: int|
            0 <= i < j < rows.len() && (#[trigger] rows[i]).id == k && (#[trigger] rows[j]).id
                == k,
{
    lemma_distinct_iff_clean(rows);
    lemma_dup_from_props(rows, 0);
}

/// The facts `lemma_first_dup_key` states, generalized over the scan
/// position.
proof fn lemma_dup_from_props(rows: Seq<RowModel>, p: int)
    requires
        0 <= p <= rows.len(),
    ensures
        dup_from(rows, p) is None <==> (forall|q: int|
            p <= q < rows.len() ==> !has_key(#[trigger] rows.take(q), rows[q].id)),
        dup_from(rows, p) matches Some(k) ==> exists|i: int, j: int|
            0 <= i < j < rows.len() && (#[trigger] rows[i]).id == k && (#[trigger] rows[j]).id
                == k,
    decreases rows.len() - p,
{
    if p < rows.len() {
        if has_key(rows.take(p), rows[p].id) {
            let i = choose|i: int|
                0 <= i < rows.take(p).len() && (#[trigger] rows.take(p)[i]).id == rows[p].id;
            assert(rows[i].id == rows[p].id);
            assert(0 <= i < p < rows.len() && rows[i].id == rows[p].id && rows[p].id == rows[p].id);
        } else {
            lemma_dup_from_props(rows, p + 1);
        }
    }
}

/// Finds the first duplicated merge key of `rows`, if any.
pub fn find_dup(rows: &Vec<Row>) -> (r: Option<String>)
    ensures
        match r {
            Some(k) => first_dup_key(row_views(rows@)) == Some(k@),
            None => first_dup_key(row_views(rows@)) is None,
        },
{
    let rv = Ghost(row_views(rows@));
    let mut j: usize = 0;
    while j < rows.len()
        invariant
            j <= rows@.len(),
            rv@ == row_views(rows@),
            forall|q: int| 0 <= q < j ==> !has_key(#[trigger] rv@.take(q), rv@[q].id),
        decreases rows@.len() - j,
    {
        let mut i: usize = 0;
        while i < j
            invariant
                i <= j < rows@.len(),
                rv@ == row_views(rows@),
                forall|q: int| 0 <= q < j ==> !has_key(#[trigger] rv@.take(q), rv@[q].id),
                forall|q: int| 0 <= q < i ==> rv@[q].id != rv@[j as int].id,
            decreases j - i,
        {
            if rows[i].id == rows[j].id {
                proof {
                    assert(rv@.take(j as int)[i as int] == rv@[i as int]);
                    assert(has_key(rv@.take(j as int), rv@[j as int].id));
                    lemma_dup_from_found(rv@, j as int);
                }
                return Some(rows[j].id.clone());
            }
            i += 1;
        }
        proof {
            if has_key(rv@.take(j as int), rv@[j as int].id) {
                let q = choose|q: int|
                    0 <= q < rv@.take(j as int).len() && (#[trigger] rv@.take(j as int)[q]).id
                        == rv@[j as int].id;
                assert(rv@[q].id == rv@[j as int].id);
                assert(false);
            }
        }
        j += 1;
    }
    proof {
        lemma_dup_from_skip(rv@, 0, rows@.len() as int);
    }
    None
}

/// Every row the matched-row action leaves keeps its position's merge
/// key.
pub proof fn lemma_updated_ids(target: Seq<RowModel>, source: Seq<RowModel>, do_update: bool)
    ensures
        updated_rows(target, source, do_update).len() == target.len(),
        forall|i: int|
            0 <= i < target.len() ==> (#[trigger] updated_rows(target, source, do_update)[i]).id
                == target[i].id,
{
    assert forall|i: int| 0 <= i < target.len() implies (#[trigger] updated_rows(
        target,
        source,
        do_update,
    )[i]).id == target[i].id by {
        if do_update && has_key(source, target[i].id) {
            let j = choose|j: int|
                0 <= j < source.len() && (#[trigger] source[j]).id == target[i].id;
        }
    }
}

/// What the not-matched action appends: rows of the source whose keys
/// no target row carries, with distinct keys when the source keys are
/// distinct.
pub proof fn lemma_inserted_rows(target: Seq<RowModel>, source: Seq<RowModel>, do_insert: bool)
    requires
        distinct_keys(source),
    ensures
        inserted_rows(target, source, do_insert).len() <= source.len(),
        forall|m: int|
            0 <= m < inserted_rows(target, source, do_insert).len() ==> {
                &&& !has_key(target, (#[trigger] inserted_rows(target, source, do_insert)[m]).id)
                &&& has_key(source, inserted_rows(target, source, do_insert)[m].id)
            },
        distinct_keys(inserted_rows(target, source, do_insert)),
    decreases source.len(),
{
    if do_insert && source.len() > 0 {
        let prefix = source.drop_last();
        assert(distinct_keys(prefix)) by {
            assert(forall|i: int|
                0 <= i < prefix.len() ==> prefix[i] == source[i]);
        }
        lemma_inserted_rows(target, prefix, do_insert);
        let init = inserted_rows(target, prefix, do_insert);
        assert forall|m: int| 0 <= m < init.len() implies has_key(
            source,
            (#[trigger] init[m]).id,
        ) by {
            let w = choose|w: int|
                0 <= w < prefix.len() && (#[trigger] prefix[w]).id == init[m].id;
            assert(source[w].id == init[m].id);
        }
        if !has_key(target, source.last().id) {
            let out = init.push(source.last());
            assert forall|m: int, n: int| 0 <= m < n < out.len() implies out[m].id
                != out[n].id by {
                if n < init.len() {
                } else {
                    let w = choose|w: int|
                        0 <= w < prefix.len() && (#[trigger] prefix[w]).id == init[m].id;
                    assert(source[w].id == init[m].id);
                    assert(source[w].id != source.last().id);
                }
            }
        }
    }
}

/// A merge of well-keyed inputs leaves a well-keyed table: the merge
/// key still identifies at most one row.
pub proof fn lemma_merged_distinct(
    target: Seq<RowModel>,
    source: Seq<RowModel>,
    do_update: bool,
    do_insert: bool,
)
    requires
        distinct_keys(target),
        distinct_keys(source),
    ensures
        distinct_keys(merged_rows(target, source, do_update, do_insert)),
{
    lemma_updated_ids(target, source, do_update);
    lemma_inserted_rows(target, source, do_insert);
    let upd = updated_rows(target, source, do_update);
    let ins = inserted_rows(target, source, do_insert);
    let all = merged_rows(target, source, do_update, do_insert);
    assert forall|i: int, j: int| 0 <= i < j < all.len() implies all[i].id != all[j].id by {
        let n = target.len() as int;
        if j < n {
            assert(all[i] == upd[i] && all[j] == upd[j]);
            assert(target[i].id != target[j].id);
        } else if i < n {
            assert(all[i] == upd[i] && all[j] == ins[j - n]);
            assert(!has_key(target, ins[j - n].id));
            if all[i].id == all[j].id {
                assert(target[i].id == ins[j - n].id);
                assert(has_key(target, ins[j - n].id));
            }
        } else {
            assert(all[i] == ins[i - n] && all[j] == ins[j - n]);
        }
    }
}

/// The empty source matches nothing.
pub proof fn lemma_matched_count_empty(target: Seq<RowModel>)
    ensures
        matched_count(target, Seq::<RowModel>::empty()) == 0,
    decreases target.len(),
{
    if target.len() > 0 {
        lemma_matched_count_empty(target.drop_last());
        assert(!has_key(Seq::<RowModel>::empty(), target.last().id));
    }
}

/// Merging the empty source leaves every row set unchanged.
pub proof fn lemma_merge_empty_source(target: Seq<RowModel>, do_update: bool, do_insert: bool)
    ensures
        merged_rows(target, Seq::<RowModel>::empty(), do_update, do_insert) == target,
        updated_count(target, Seq::<RowModel>::empty(), do_update) == 0,
        inserted_count(target, Seq::<RowModel>::empty(), do_insert) == 0,
{
    lemma_matched_count_empty(target);
    assert forall|i: int| 0 <= i < target.len() implies (#[trigger] updated_rows(
        target,
        Seq::<RowModel>::empty(),
        do_update,
    )[i]) == target[i] by {
        assert(!has_key(Seq::<RowModel>::empty(), target[i].id));
    }
    assert(merged_rows(target, Seq::<RowModel>::empty(), do_update, do_insert) =~= target);
}

} // verus!
