//! The versioned table store: a model of the storage backend's
//! commit log, holding one immutable generation per table location.
//! Provisioning (`create`, `open`) lives here; the merge operation
//! builds on it in the merge module.

use vstd::prelude::*;
use crate::config::StorageOptions;
use crate::error::WorkflowError;
use crate::merge::{
    JoinPredicate, MatchedAction, MergeMetrics, NotMatchedAction, check_predicate, find_dup,
    first_dup_key, inserted_count, inserted_rows, lemma_first_dup_key, lemma_merged_distinct,
    merged_rows, predicate_matches_key, updated_count, updated_rows,
};
use crate::row::{Row, RowModel, row_views, has_key, distinct_keys, find_row, lemma_row_with_key};
use crate::schema::{Column, ColumnModel, column_views};

verus! {

/// The mathematical reading of one committed table generation.
pub struct TableModel {
    pub generation: int,
    pub schema: Seq<ColumnModel>,
    pub rows: Seq<RowModel>,
}

/// The mathematical reading of an open table handle.
pub struct HandleModel {
    pub location: Seq<char>,
    pub generation: int,
    pub schema: Seq<ColumnModel>,
    pub rows: Seq<RowModel>,
}

/// A handle bound to one committed generation snapshot of the table
/// at `location`.
#[derive(Debug)]
pub struct TableHandle {
    pub location: String,
    pub generation: u64,
    pub schema: Vec<Column>,
    pub rows: Vec<Row>,
}

impl View for TableHandle {
    type V = HandleModel;

    open spec fn view(&self) -> HandleModel {
        HandleModel {
            location: self.location@,
            generation: self.generation as int,
            schema: column_views(self.schema@),
            rows: row_views(self.rows@),
        }
    }
}

/// The handle a caller receives for the table `t` at `loc`.
pub open spec fn handle_model(loc: Seq<char>, t: TableModel) -> HandleModel {
    HandleModel { location: loc, generation: t.generation, schema: t.schema, rows: t.rows }
}

/// The initial empty generation a fresh table is created with.
pub open spec fn fresh_table(schema: Seq<ColumnModel>) -> TableModel {
    TableModel { generation: 0, schema, rows: Seq::empty() }
}

/// The generation written when an existing table is overwritten.
pub open spec fn overwritten_table(prev: TableModel, schema: Seq<ColumnModel>) -> TableModel {
    TableModel { generation: prev.generation + 1, schema, rows: Seq::empty() }
}

/// A committed table generation is well formed: its merge keys are
/// unique, so the merge key identifies at most one row.
pub open spec fn table_wf(t: TableModel) -> bool {
    distinct_keys(t.rows)
}

/// Every table of the store is well formed.
pub open spec fn store_model_wf(s: Map<Seq<char>, TableModel>) -> bool {
    forall|loc: Seq<char>| #[trigger] s.contains_key(loc) ==> table_wf(s[loc])
}

/// What a `create` call must answer and leave behind, as a function
/// of the prior store contents, the requested location and schema,
/// and the save mode. `None` stands for the `TableAlreadyExists`
/// failure, which leaves the store unchanged.
pub open spec fn create_outcome(
    s: Map<Seq<char>, TableModel>,
    loc: Seq<char>,
    schema: Seq<ColumnModel>,
    mode: SaveMode,
) -> Option<(Map<Seq<char>, TableModel>, HandleModel)> {
    if !s.contains_key(loc) {
        Some((s.insert(loc, fresh_table(schema)), handle_model(loc, fresh_table(schema))))
    } else if mode is ErrorIfExists {
        None
    } else if mode is Ignore {
        Some((s, handle_model(loc, s[loc])))
    } else {
        Some(
            (
                s.insert(loc, overwritten_table(s[loc], schema)),
                handle_model(loc, overwritten_table(s[loc], schema)),
            ),
        )
    }
}

/// The policy applied when a table already exists at the requested
/// location.
#[derive(Clone, Copy, Debug, PartialEq, Eq, Structural)]
pub enum SaveMode {
    ErrorIfExists,
    Overwrite,
    Ignore,
}


/// The result of a committed merge: the handle of the resulting
/// generation and the counts of applied row actions.
#[derive(Debug)]
pub struct MergeOutcome {
    pub handle: TableHandle,
    pub metrics: MergeMetrics,
}

/// What a `merge` call must decide, as a function of the prior store
/// contents, the handle's location and generation, the source rows,
/// and the merge configuration.
pub enum MergeDecision {
    /// No committed generation exists at the location.
    NotFound,
    /// The join predicate is not the supported key equality.
    BadPredicate,
    /// The source batch repeats the merge key `key`.
    Ambiguous { key: Seq<char> },
    /// The handle's generation is no longer the latest one.
    Conflict { expected: int, actual: int },
    /// The merge commits `table`; `bumped` says whether that is a new
    /// generation, which happens exactly when at least one row action
    /// applies.
    Committed { table: TableModel, updated: int, inserted: int, bumped: bool },
}

/// The merge decision. Failures are checked in this order: unknown
/// location, unsupported predicate, ambiguous source batch, stale
/// generation.
pub open spec fn merge_outcome(
    s: Map<Seq<char>, TableModel>,
    loc: Seq<char>,
    generation: int,
    source: Seq<RowModel>,
    pred_ok: bool,
    do_update: bool,
    do_insert: bool,
) -> MergeDecision {
    if !s.contains_key(loc) {
        MergeDecision::NotFound
    } else if !pred_ok {
        MergeDecision::BadPredicate
    } else if first_dup_key(source) is Some {
        MergeDecision::Ambiguous { key: first_dup_key(source)->0 }
    } else if s[loc].generation != generation {
        MergeDecision::Conflict { expected: generation, actual: s[loc].generation }
    } else {
        let t = s[loc];
        let updated = updated_count(t.rows, source, do_update);
        let inserted = inserted_count(t.rows, source, do_insert);
        let bumped = updated + inserted > 0;
        MergeDecision::Committed {
            table: if bumped {
                TableModel {
                    generation: generation + 1,
                    schema: t.schema,
                    rows: merged_rows(t.rows, source, do_update, do_insert),
                }
            } else {
                t
            },
            updated,
            inserted,
            bumped,
        }
    }
}

/// One location of the store and the latest committed generation of
/// the table there.
struct StoredTable {
    location: String,
    generation: u64,
    schema: Vec<Column>,
    rows: Vec<Row>,
}

impl StoredTable {
    spec fn model(&self) -> TableModel {
        TableModel {
            generation: self.generation as int,
            schema: column_views(self.schema@),
            rows: row_views(self.rows@),
        }
    }
}

spec fn entries_contain(entries: Seq<StoredTable>, loc: Seq<char>) -> bool {
    exists|i: int| 0 <= i < entries.len() && (#[trigger] entries[i]).location@ == loc
}

spec fn entry_index(entries: Seq<StoredTable>, loc: Seq<char>) -> int {
    choose|i: int| 0 <= i < entries.len() && (#[trigger] entries[i]).location@ == loc
}

spec fn entries_view(entries: Seq<StoredTable>) -> Map<Seq<char>, TableModel> {
    Map::new(
        |loc: Seq<char>| entries_contain(entries, loc),
        |loc: Seq<char>| entries[entry_index(entries, loc)].model(),
    )
}

/// No two entries claim the same location.
spec fn locations_distinct(entries: Seq<StoredTable>) -> bool {
    forall|i: int, j: int| 0 <= i < j < entries.len() ==> entries[i].location@
        != entries[j].location@
}

/// With distinct locations, the entry found at `i` is the one the
/// view reads at its location.
proof fn lemma_entry_at(entries: Seq<StoredTable>, i: int)
    requires
        locations_distinct(entries),
        0 <= i < entries.len(),
    ensures
        entries_contain(entries, entries[i].location@),
        entry_index(entries, entries[i].location@) == i,
        entries_view(entries).contains_key(entries[i].location@),
        entries_view(entries)[entries[i].location@] == entries[i].model(),
{
    let loc = entries[i].location@;
    assert(entries_contain(entries, loc));
    let j = entry_index(entries, loc);
    if i != j {
        assert(entries[i].location@ != entries[j].location@);
        assert(false);
    }
}

/// Appending an entry at a fresh location inserts it into the view.
proof fn lemma_view_push(entries: Seq<StoredTable>, e: StoredTable)
    requires
        locations_distinct(entries),
        !entries_contain(entries, e.location@),
    ensures
        locations_distinct(entries.push(e)),
        entries_view(entries.push(e)) == entries_view(entries).insert(e.location@, e.model()),
{
    let l = e.location@;
    let e1 = entries.push(e);
    let n = entries.len() as int;
    assert forall|i: int, j: int| 0 <= i < j < e1.len() implies e1[i].location@
        != e1[j].location@ by {
        if j < n {
            assert(entries[i].location@ != entries[j].location@);
        } else {
            assert(e1[j].location@ == l);
            assert(entries_contain(entries, entries[i].location@));
        }
    }
    assert forall|x: Seq<char>| #[trigger]
        entries_contain(e1, x) implies entries_contain(entries, x) || x == l by {
        let i = choose|i: int| 0 <= i < e1.len() && (#[trigger] e1[i]).location@ == x;
        if i < n {
            assert(entries[i].location@ == x);
        }
    }
    assert forall|x: Seq<char>| entries_contain(entries, x) || x == l implies #[trigger]
        entries_contain(e1, x) by {
        if entries_contain(entries, x) {
            let i = choose|i: int|
                0 <= i < entries.len() && (#[trigger] entries[i]).location@ == x;
            assert(e1[i].location@ == x);
        } else {
            assert(e1[n].location@ == x);
        }
    }
    assert forall|x: Seq<char>| #[trigger]
        entries_contain(e1, x) implies entries_view(e1)[x] == entries_view(entries).insert(
        l,
        e.model(),
    )[x] by {
        let i = entry_index(e1, x);
        assert(0 <= i < e1.len() && e1[i].location@ == x);
        lemma_entry_at(e1, i);
        if x == l {
            if i < n {
                assert(entries[i].location@ == l);
                assert(entries_contain(entries, l));
                assert(false);
            }
            assert(e1[i].model() == e.model());
        } else {
            assert(i < n);
            lemma_entry_at(entries, i);
            assert(entries_view(entries)[x] == entries[i].model());
        }
    }
    assert(entries_view(e1) =~= entries_view(entries).insert(l, e.model()));
}

/// Replacing the entry at a location updates the view at that key
/// alone.
proof fn lemma_view_update(entries: Seq<StoredTable>, i: int, e: StoredTable)
    requires
        locations_distinct(entries),
        0 <= i < entries.len(),
        entries[i].location@ == e.location@,
    ensures
        locations_distinct(entries.update(i, e)),
        entries_view(entries.update(i, e)) == entries_view(entries).insert(
            e.location@,
            e.model(),
        ),
{
    let l = e.location@;
    let e1 = entries.update(i, e);
    assert forall|p: int, q: int| 0 <= p < q < e1.len() implies e1[p].location@
        != e1[q].location@ by {
        assert(entries[p].location@ != entries[q].location@);
        assert(e1[p].location@ == if p == i {
            l
        } else {
            entries[p].location@
        });
        assert(e1[q].location@ == if q == i {
            l
        } else {
            entries[q].location@
        });
    }
    assert forall|x: Seq<char>| #[trigger]
        entries_contain(e1, x) implies entries_contain(entries, x) by {
        let p = choose|p: int| 0 <= p < e1.len() && (#[trigger] e1[p]).location@ == x;
        if p == i {
            assert(entries[i].location@ == x);
        } else {
            assert(entries[p].location@ == x);
        }
    }
    assert forall|x: Seq<char>| #[trigger]
        entries_contain(entries, x) implies entries_contain(e1, x) by {
        let p = choose|p: int|
            0 <= p < entries.len() && (#[trigger] entries[p]).location@ == x;
        if p == i {
            assert(e1[i].location@ == x);
        } else {
            assert(e1[p].location@ == x);
        }
    }
    assert forall|x: Seq<char>| #[trigger]
        entries_contain(e1, x) implies entries_view(e1)[x] == entries_view(entries).insert(
        l,
        e.model(),
    )[x] by {
        let p = entry_index(e1, x);
        assert(0 <= p < e1.len() && e1[p].location@ == x);
        lemma_entry_at(e1, p);
        if x == l {
            if p != i {
                assert(e1[p].location@ != e1[i].location@);
                assert(false);
            }
            assert(e1[p].model() == e.model());
        } else {
            assert(p != i);
            lemma_entry_at(entries, p);
        }
    }
    assert(entries[i].location@ == l);
    assert(entries_contain(entries, l));
    assert(e1[i].location@ == l);
    assert(entries_contain(e1, l));
    assert(entries_view(e1) =~= entries_view(entries).insert(l, e.model()));
}

/// The versioned table store. Its view is the mapping from location
/// to the latest committed generation there.
pub struct TableStore {
    entries: Vec<StoredTable>,
}

impl View for TableStore {
    type V = Map<Seq<char>, TableModel>;

    closed spec fn view(&self) -> Map<Seq<char>, TableModel> {
        entries_view(self.entries@)
    }
}

impl TableStore {
    /// Each location appears once, and every committed table is well
    /// formed.
    pub closed spec fn wf(&self) -> bool {
        &&& locations_distinct(self.entries@)
        &&& store_model_wf(self@)
    }

    /// An empty store: no location holds a table.
    pub fn new() -> (s: TableStore)
        ensures
            s@ == Map::<Seq<char>, TableModel>::empty(),
            s.wf(),
    {
        let s = TableStore { entries: Vec::new() };
        proof {
            assert forall|x: Seq<char>| !(#[trigger] entries_contain(s.entries@, x)) by {
                if entries_contain(s.entries@, x) {
                    let i = choose|i: int|
                        0 <= i < s.entries@.len() && (#[trigger] s.entries@[i]).location@ == x;
                    assert(false);
                }
            }
            assert(s@ =~= Map::<Seq<char>, TableModel>::empty());
        }
        s
    }

    fn find_entry(&self, location: &String) -> (r: Option<usize>)
        requires
            self.wf(),
        ensures
            match r {
                Some(i) => {
                    &&& i < self.entries@.len()
                    &&& self.entries@[i as int].location@ == location@
                    &&& self@.contains_key(location@)
                    &&& self@[location@] == self.entries@[i as int].model()
                },
                None => !self@.contains_key(location@),
            },
    {
        let mut i: usize = 0;
        while i < self.entries.len()
            invariant
                self.wf(),
                i <= self.entries@.len(),
                forall|j: int| 0 <= j < i ==> self.entries@[j].location@ != location@,
            decreases self.entries@.len() - i,
        {
            if self.entries[i].location == *location {
                proof {
                    lemma_entry_at(self.entries@, i as int);
                }
                return Some(i);
            }
            i += 1;
        }
        proof {
            if entries_contain(self.entries@, location@) {
                let j = choose|j: int|
                    0 <= j < self.entries@.len() && (#[trigger] self.entries@[j]).location@
                        == location@;
                assert(false);
            }
        }
        None
    }

    /// Creates a table at `location` under the given save mode.
    ///
    /// With a fresh location this atomically commits an initial empty
    /// generation carrying `schema` and returns its handle. At an
    /// occupied location, `ErrorIfExists` fails with
    /// `TableAlreadyExists` and mutates nothing; `Ignore` returns the
    /// existing table untouched; `Overwrite` commits a new empty
    /// generation on top of it. The configuration only addresses the
    /// backend; it does not alter the outcome.
    pub fn create(
        &mut self,
        location: &str,
        schema: &Vec<Column>,
        config: &StorageOptions,
        mode: SaveMode,
    ) -> (r: Result<TableHandle, WorkflowError>)
        requires
            old(self).wf(),
            old(self)@.contains_key(location@) && mode is Overwrite ==> old(
                self,
            )@[location@].generation < u64::MAX,
        ensures
            final(self).wf(),
            match create_outcome(old(self)@, location@, column_views(schema@), mode) {
                Some(post) => {
                    &&& final(self)@ == post.0
                    &&& r matches Ok(h) && h@ == post.1
                },
                None => {
                    &&& final(self)@ == old(self)@
                    &&& r matches Err(e) && (e matches WorkflowError::TableAlreadyExists {
                        location: l,
                    } && l@ == location@)
                },
            },
    {
        let loc: String = location.to_owned();
        match self.find_entry(&loc) {
            None => {
                let entry = StoredTable {
                    location: loc,
                    generation: 0,
                    schema: clone_columns(schema),
                    rows: Vec::new(),
                };
                let handle = TableHandle {
                    location: location.to_owned(),
                    generation: 0,
                    schema: clone_columns(schema),
                    rows: Vec::new(),
                };
                proof {
                    lemma_view_push(self.entries@, entry);
                    assert(row_views(entry.rows@) =~= Seq::<RowModel>::empty());
                    assert(entry.model() == fresh_table(column_views(schema@)));
                    assert(row_views(handle.rows@) =~= Seq::<RowModel>::empty());
                    assert(handle@ == handle_model(location@, fresh_table(column_views(schema@))));
                }
                self.entries.push(entry);
                proof {
                    assert forall|l: Seq<char>| #[trigger]
                        self@.contains_key(l) implies table_wf(self@[l]) by {
                        if l != location@ {
                            assert(old(self)@.contains_key(l));
                        }
                    }
                }
                Ok(handle)
            },
            Some(i) => {
                match mode {
                    SaveMode::ErrorIfExists => {
                        Err(WorkflowError::TableAlreadyExists { location: loc })
                    },
                    SaveMode::Ignore => {
                        let entry = &self.entries[i];
                        let handle = TableHandle {
                            location: location.to_owned(),
                            generation: entry.generation,
                            schema: clone_columns(&entry.schema),
                            rows: clone_rows(&entry.rows),
                        };
                        Ok(handle)
                    },
                    SaveMode::Overwrite => {
                        let prev_generation = self.entries[i].generation;
                        let entry = StoredTable {
                            location: loc,
                            generation: prev_generation + 1,
                            schema: clone_columns(schema),
                            rows: Vec::new(),
                        };
                        let handle = TableHandle {
                            location: location.to_owned(),
                            generation: prev_generation + 1,
                            schema: clone_columns(schema),
                            rows: Vec::new(),
                        };
                        proof {
                            lemma_view_update(self.entries@, i as int, entry);
                            assert(row_views(entry.rows@) =~= Seq::<RowModel>::empty());
                            assert(entry.model() == overwritten_table(
                                old(self)@[location@],
                                column_views(schema@),
                            ));
                            assert(row_views(handle.rows@) =~= Seq::<RowModel>::empty());
                            assert(handle@ == handle_model(
                                location@,
                                overwritten_table(old(self)@[location@], column_views(schema@)),
                            ));
                        }
                        self.entries.set(i, entry);
                        proof {
                            assert forall|l: Seq<char>| #[trigger]
                                self@.contains_key(l) implies table_wf(self@[l]) by {
                                if l != location@ {
                                    assert(old(self)@.contains_key(l));
                                }
                            }
                        }
                        Ok(handle)
                    },
                }
            },
        }
    }

    /// Opens the latest committed generation of the table at
    /// `location`, or fails with `TableNotFound` if no generation was
    /// ever committed there. The store is never changed.
    pub fn open(&self, location: &str, config: &StorageOptions) -> (r: Result<
        TableHandle,
        WorkflowError,
    >)
        requires
            self.wf(),
        ensures
            self@.contains_key(location@) ==> (r matches Ok(h) && h@ == handle_model(
                location@,
                self@[location@],
            )),
            !self@.contains_key(location@) ==> (r matches Err(e) && (
            e matches WorkflowError::TableNotFound { location: l } && l@ == location@)),
    {
        let loc: String = location.to_owned();
        match self.find_entry(&loc) {
            Some(i) => {
                let entry = &self.entries[i];
                Ok(
                    TableHandle {
                        location: loc,
                        generation: entry.generation,
                        schema: clone_columns(&entry.schema),
                        rows: clone_rows(&entry.rows),
                    },
                )
            },
            None => Err(WorkflowError::TableNotFound { location: loc }),
        }
    }

    /// Reconciles the source batch against the table the handle
    /// addresses and commits the result as one new generation.
    ///
    /// Every source row matching a target row by the merge key takes
    /// the matched-row action; every other source row takes the
    /// not-matched action; target rows no source row matches stay
    /// untouched. The commit is atomic and optimistic: it only
    /// happens if the handle's generation is still the latest one,
    /// and only if at least one row action applies. A source batch
    /// repeating a merge key is rejected as ambiguous; failures are
    /// checked in the order `merge_outcome` fixes, and a failed call
    /// changes nothing.
    pub fn merge(
        &mut self,
        target: &TableHandle,
        source: &Vec<Row>,
        predicate: &JoinPredicate,
        on_matched: MatchedAction,
        on_not_matched: NotMatchedAction,
        source_alias: &str,
    ) -> (r: Result<MergeOutcome, WorkflowError>)
        requires
            old(self).wf(),
            target@.generation < u64::MAX,
        ensures
            final(self).wf(),
            ({
                let decision = merge_outcome(
                    old(self)@,
                    target@.location,
                    target@.generation,
                    row_views(source@),
                    predicate_matches_key(
                        predicate.target_column@,
                        predicate.source_column@,
                        source_alias@,
                    ),
                    on_matched is UpdateAll,
                    on_not_matched is Insert,
                );
                match decision {
                    MergeDecision::NotFound => {
                        &&& final(self)@ == old(self)@
                        &&& r matches Err(e) && (e matches WorkflowError::TableNotFound {
                            location: l,
                        } && l@ == target@.location)
                    },
                    MergeDecision::BadPredicate => {
                        &&& final(self)@ == old(self)@
                        &&& r matches Err(e) && (e matches WorkflowError::MergeExecutionFailed {
                            cause,
                        } && cause@ == "unsupported merge predicate"@)
                    },
                    MergeDecision::Ambiguous { key } => {
                        &&& final(self)@ == old(self)@
                        &&& r matches Err(e) && (e matches WorkflowError::AmbiguousMatch { key: k }
                            && k@ == key)
                    },
                    MergeDecision::Conflict { expected, actual } => {
                        &&& final(self)@ == old(self)@
                        &&& r matches Err(e) && (e matches WorkflowError::ConcurrentModification {
                            location: l,
                            expected_generation,
                            actual_generation,
                        } && l@ == target@.location && expected_generation as int == expected
                            && actual_generation as int == actual)
                    },
                    MergeDecision::Committed { table, updated, inserted, bumped } => {
                        &&& bumped ==> final(self)@ == old(self)@.insert(target@.location, table)
                        &&& !bumped ==> final(self)@ == old(self)@
                        &&& r matches Ok(o) && o.handle@ == handle_model(target@.location, table)
                            && o.metrics.rows_updated as int == updated
                            && o.metrics.rows_inserted as int == inserted
                    },
                }
            }),
    {
        let loc: String = target.location.clone();
        match self.find_entry(&loc) {
            None => Err(WorkflowError::TableNotFound { location: loc }),
            Some(idx) => {
                if !check_predicate(predicate, source_alias) {
                    return Err(
                        WorkflowError::MergeExecutionFailed {
                            cause: "unsupported merge predicate".to_owned(),
                        },
                    );
                }
                match find_dup(source) {
                    Some(k) => {
                        return Err(WorkflowError::AmbiguousMatch { key: k });
                    },
                    None => {},
                }
                let current_generation = self.entries[idx].generation;
                if current_generation != target.generation {
                    return Err(
                        WorkflowError::ConcurrentModification {
                            location: loc,
                            expected_generation: target.generation,
                            actual_generation: current_generation,
                        },
                    );
                }
                let do_update = on_matched == MatchedAction::UpdateAll;
                let do_insert = on_not_matched == NotMatchedAction::Insert;
                let cur = clone_rows(&self.entries[idx].rows);
                let ghost cur_v = row_views(cur@);
                let ghost src_v = row_views(source@);
                proof {
                    lemma_first_dup_key(src_v);
                    assert(self@[loc@] == self.entries@[idx as int].model());
                    assert(distinct_keys(cur_v));
                }
                let mut new_rows: Vec<Row> = Vec::new();
                let mut updated: usize = 0;
                let mut i: usize = 0;
                while i < cur.len()
                    invariant
                        i <= cur@.len(),
                        updated <= i,
                        cur_v == row_views(cur@),
                        src_v == row_views(source@),
                        distinct_keys(src_v),
                        new_rows@.len() == i,
                        forall|q: int|
                            0 <= q < i ==> row_views(new_rows@)[q] == updated_rows(
                                cur_v,
                                src_v,
                                do_update,
                            )[q],
                        updated == updated_count(cur_v.take(i as int), src_v, do_update),
                    decreases cur@.len() - i,
                {
                    let ghost prev_rows = new_rows@;
                    proof {
                        assert(cur_v.take(i + 1).drop_last() =~= cur_v.take(i as int));
                        assert(cur_v.take(i + 1).last() == cur_v[i as int]);
                    }
                    match find_row(source, &cur[i].id) {
                        Some(j) => {
                            proof {
                                assert(has_key(src_v, cur_v[i as int].id));
                                lemma_row_with_key(src_v, cur_v[i as int].id, j as int);
                            }
                            if do_update {
                                new_rows.push(source[j].clone());
                                updated += 1;
                            } else {
                                new_rows.push(cur[i].clone());
                            }
                        },
                        None => {
                            new_rows.push(cur[i].clone());
                        },
                    }
                    proof {
                        assert forall|q: int| 0 <= q <= i implies row_views(new_rows@)[q]
                            == updated_rows(cur_v, src_v, do_update)[q] by {
                            if q < i {
                                assert(new_rows@[q] == prev_rows[q]);
                                assert(row_views(prev_rows)[q] == updated_rows(
                                    cur_v,
                                    src_v,
                                    do_update,
                                )[q]);
                            } else {
                                assert(new_rows@[q] == new_rows@.last());
                            }
                        }
                    }
                    i += 1;
                }
                proof {
                    assert(cur_v.take(cur_v.len() as int) =~= cur_v);
                    assert(row_views(new_rows@) =~= updated_rows(cur_v, src_v, do_update));
                }
                let ghost upd_v = updated_rows(cur_v, src_v, do_update);
                let mut j: usize = 0;
                let mut inserted: usize = 0;
                while j < source.len()
                    invariant
                        j <= source@.len(),
                        inserted <= j,
                        cur_v == row_views(cur@),
                        src_v == row_views(source@),
                        upd_v == updated_rows(cur_v, src_v, do_update),
                        row_views(new_rows@) == upd_v + inserted_rows(
                            cur_v,
                            src_v.take(j as int),
                            do_insert,
                        ),
                        inserted == inserted_count(cur_v, src_v.take(j as int), do_insert),
                    decreases source@.len() - j,
                {
                    let ghost prev_rows = new_rows@;
                    proof {
                        assert(src_v.take(j + 1).drop_last() =~= src_v.take(j as int));
                        assert(src_v.take(j + 1).drop_last() == src_v.take(j as int));
                        assert(src_v.take(j + 1).last() == src_v[j as int]);
                    }
                    match find_row(&cur, &source[j].id) {
                        None => {
                            if do_insert {
                                new_rows.push(source[j].clone());
                                inserted += 1;
                                proof {
                                    let init = inserted_rows(
                                        cur_v,
                                        src_v.take(j as int),
                                        do_insert,
                                    );
                                    assert(!has_key(cur_v, src_v.take(j + 1).last().id));
                                    assert(inserted_rows(cur_v, src_v.take(j + 1), do_insert)
                                        == init.push(src_v[j as int]));
                                    assert(row_views(prev_rows) == upd_v + init);
                                    assert(row_views(prev_rows).len() == prev_rows.len());
                                    assert((upd_v + init).len() == upd_v.len() + init.len());
                                    assert(prev_rows.len() == upd_v.len() + init.len());
                                    assert(new_rows@.len() == prev_rows.len() + 1);
                                    let rhs = upd_v + inserted_rows(
                                        cur_v,
                                        src_v.take(j + 1),
                                        do_insert,
                                    );
                                    assert forall|q: int|
                                        0 <= q < new_rows@.len() implies row_views(new_rows@)[q]
                                        == rhs[q] by {
                                        if q < prev_rows.len() {
                                            assert(new_rows@[q] == prev_rows[q]);
                                            assert(row_views(prev_rows)[q] == (upd_v + init)[q]);
                                        } else {
                                            assert(new_rows@[q] == new_rows@.last());
                                        }
                                    }
                                    assert(row_views(new_rows@) =~= rhs);
                                }
                            }
                        },
                        Some(_) => {
                            proof {
                                assert(has_key(cur_v, src_v[j as int].id));
                            }
                        },
                    }
                    proof {
                        assert(row_views(new_rows@) =~= upd_v + inserted_rows(
                            cur_v,
                            src_v.take(j + 1),
                            do_insert,
                        ));
                    }
                    j += 1;
                }
                proof {
                    assert(src_v.take(src_v.len() as int) =~= src_v);
                    assert(row_views(new_rows@) =~= merged_rows(
                        cur_v,
                        src_v,
                        do_update,
                        do_insert,
                    ));
                }
                if updated == 0 && inserted == 0 {
                    let handle = TableHandle {
                        location: loc,
                        generation: current_generation,
                        schema: clone_columns(&self.entries[idx].schema),
                        rows: cur,
                    };
                    proof {
                        assert(handle@ == handle_model(target@.location, old(self)@[
                            target@.location]));
                    }
                    Ok(
                        MergeOutcome {
                            handle,
                            metrics: MergeMetrics { rows_updated: 0, rows_inserted: 0 },
                        },
                    )
                } else {
                    let new_generation = current_generation + 1;
                    let handle = TableHandle {
                        location: loc,
                        generation: new_generation,
                        schema: clone_columns(&self.entries[idx].schema),
                        rows: clone_rows(&new_rows),
                    };
                    let entry = StoredTable {
                        location: target.location.clone(),
                        generation: new_generation,
                        schema: clone_columns(&self.entries[idx].schema),
                        rows: new_rows,
                    };
                    proof {
                        lemma_merged_distinct(cur_v, src_v, do_update, do_insert);
                        lemma_view_update(self.entries@, idx as int, entry);
                    }
                    self.entries.set(idx, entry);
                    proof {
                        assert forall|l: Seq<char>| #[trigger]
                            self@.contains_key(l) implies table_wf(self@[l]) by {
                            if l != target@.location {
                                assert(old(self)@.contains_key(l));
                            }
                        }
                    }
                    Ok(
                        MergeOutcome {
                            handle,
                            metrics: MergeMetrics {
                                rows_updated: updated,
                                rows_inserted: inserted,
                            },
                        },
                    )
                }
            },
        }
    }
}

/// Copies a column list, keeping its reading.
pub fn clone_columns(cols: &Vec<Column>) -> (r: Vec<Column>)
    ensures
        column_views(r@) == column_views(cols@),
{
    let mut r: Vec<Column> = Vec::new();
    let mut i: usize = 0;
    while i < cols.len()
        invariant
            i <= cols@.len(),
            r@.len() == i,
            forall|j: int| 0 <= j < i ==> r@[j]@ == cols@[j]@,
        decreases cols@.len() - i,
    {
        r.push(cols[i].clone());
        i += 1;
    }
    proof {
        assert(column_views(r@) =~= column_views(cols@));
    }
    r
}

/// Copies a row list, keeping its reading.
pub fn clone_rows(rows: &Vec<Row>) -> (r: Vec<Row>)
    ensures
        row_views(r@) == row_views(rows@),
{
    let mut r: Vec<Row> = Vec::new();
    let mut i: usize = 0;
    while i < rows.len()
        invariant
            i <= rows@.len(),
            r@.len() == i,
            forall|j: int| 0 <= j < i ==> r@[j]@ == rows@[j]@,
        decreases rows@.len() - i,
    {
        r.push(rows[i].clone());
        i += 1;
    }
    proof {
        assert(row_views(r@) =~= row_views(rows@));
    }
    r
}

} // verus!
