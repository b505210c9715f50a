//! The library's general guarantees, stated and proved over the same
//! spec functions the executable contracts use.

use vstd::prelude::*;
use crate::merge::{lemma_first_dup_key, lemma_merge_empty_source};
use crate::row::{RowModel, distinct_keys};
use crate::schema::{ColumnModel, distinct_column_names, lemma_reserved_schema_wf, reserved_schema};
use crate::store::{
    MergeDecision, SaveMode, TableModel, create_outcome, fresh_table, handle_model, merge_outcome,
};

verus! {

/// Provisioning a fresh location succeeds exactly once: the first
/// `create` with `ErrorIfExists` commits the initial empty
/// generation, and a second `create` at the same location is refused
/// (the executable contract then leaves the store, and so that first
/// generation, unchanged).
pub proof fn lemma_create_exactly_once(
    s: Map<Seq<char>, TableModel>,
    loc: Seq<char>,
    schema: Seq<ColumnModel>,
    schema2: Seq<ColumnModel>,
)
    requires
        !s.contains_key(loc),
    ensures
        ({
            let first = create_outcome(s, loc, schema, SaveMode::ErrorIfExists);
            let s1 = (first->0).0;
            &&& first is Some
            &&& s1.contains_key(loc)
            &&& s1[loc] == fresh_table(schema)
            &&& create_outcome(s1, loc, schema2, SaveMode::ErrorIfExists) is None
        }),
{
}

/// After creating a table with the reserved schema and re-opening it,
/// the handle reads exactly the three declared columns, their names
/// unique and none of them nullable.
pub proof fn lemma_create_then_open_schema(s: Map<Seq<char>, TableModel>, loc: Seq<char>)
    requires
        !s.contains_key(loc),
    ensures
        ({
            let s1 = (create_outcome(s, loc, reserved_schema(), SaveMode::ErrorIfExists)->0).0;
            let h = handle_model(loc, s1[loc]);
            &&& s1.contains_key(loc)
            &&& h.schema == reserved_schema()
            &&& h.schema.len() == 3
            &&& distinct_column_names(h.schema)
            &&& forall|i: int| 0 <= i < h.schema.len() ==> !h.schema[i].nullable
        }),
{
    lemma_reserved_schema_wf();
}

/// Merging an empty source batch changes no rows and commits no new
/// generation, whatever the table and the merge configuration.
pub proof fn lemma_merge_empty_batch(
    s: Map<Seq<char>, TableModel>,
    loc: Seq<char>,
    do_update: bool,
    do_insert: bool,
)
    requires
        s.contains_key(loc),
    ensures
        merge_outcome(s, loc, s[loc].generation, Seq::<RowModel>::empty(), true, do_update,
            do_insert) == (MergeDecision::Committed {
            table: s[loc],
            updated: 0,
            inserted: 0,
            bumped: false,
        }),
{
    lemma_first_dup_key(Seq::<RowModel>::empty());
    lemma_merge_empty_source(s[loc].rows, do_update, do_insert);
}

/// Of two merges computed against the same generation, only the first
/// can commit: once it has, the second is refused as a concurrency
/// conflict naming both generations, and is never silently applied
/// over the first.
pub proof fn lemma_concurrent_merge(
    s: Map<Seq<char>, TableModel>,
    loc: Seq<char>,
    source1: Seq<RowModel>,
    source2: Seq<RowModel>,
    do_update: bool,
    do_insert: bool,
)
    requires
        s.contains_key(loc),
        merge_outcome(
            s,
            loc,
            s[loc].generation,
            source1,
            true,
            do_update,
            do_insert,
        ) matches MergeDecision::Committed { bumped, .. } && bumped,
        distinct_keys(source2),
    ensures
        ({
            let first = merge_outcome(s, loc, s[loc].generation, source1, true, do_update,
                do_insert);
            let s1 = s.insert(loc, first->Committed_table);
            merge_outcome(s1, loc, s[loc].generation, source2, true, do_update, do_insert)
                == (MergeDecision::Conflict {
                expected: s[loc].generation,
                actual: s[loc].generation + 1,
            })
        }),
{
    lemma_first_dup_key(source2);
}

/// A source batch repeating a merge key — in particular one whose two
/// rows would match the same target row — is refused as ambiguous,
/// with a key that is indeed repeated; it is never partially applied.
pub proof fn lemma_ambiguous_merge(
    s: Map<Seq<char>, TableModel>,
    loc: Seq<char>,
    generation: int,
    source: Seq<RowModel>,
    do_update: bool,
    do_insert: bool,
)
    requires
        s.contains_key(loc),
        !distinct_keys(source),
    ensures
        merge_outcome(s, loc, generation, source, true, do_update, do_insert)
            matches MergeDecision::Ambiguous { key } && exists|i: int, j: int|
            0 <= i < j < source.len() && (#[trigger] source[i]).id == key && (
            #[trigger] source[j]).id == key,
{
    lemma_first_dup_key(source);
}

} // verus!
