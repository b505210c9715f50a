use delta_upsert::config::StorageOptions;
use delta_upsert::error::WorkflowError;
use delta_upsert::merge::{JoinPredicate, MatchedAction, NotMatchedAction};
use delta_upsert::row::Row;
use delta_upsert::schema::{reserved_columns, Column, PrimitiveType};
use delta_upsert::store::{SaveMode, TableHandle, TableStore};

fn test_config() -> StorageOptions {
    StorageOptions::resolve(
        Some("true".to_string()),
        Some("http://localhost:9000".to_string()),
        Some("eu-west-1".to_string()),
        Some("minio".to_string()),
        Some("minio-secret".to_string()),
        Some("sequencedatain".to_string()),
    )
    .unwrap()
}

fn key_predicate() -> JoinPredicate {
    JoinPredicate {
        target_column: "__id".to_string(),
        source_column: "source.__id".to_string(),
    }
}

fn row(id: &str, created_at: i64, updated_at: i64) -> Row {
    Row { id: id.to_string(), created_at, updated_at }
}

fn merge_all(
    store: &mut TableStore,
    handle: &TableHandle,
    source: &Vec<Row>,
) -> Result<delta_upsert::store::MergeOutcome, WorkflowError> {
    store.merge(
        handle,
        source,
        &key_predicate(),
        MatchedAction::UpdateAll,
        NotMatchedAction::Insert,
        "source",
    )
}

#[test]
fn create_succeeds_once_then_reports_existing_table() {
    let config = test_config();
    let mut store = TableStore::new();
    let location = "s3://sequencedatain/minimal_example/t1";
    let schema = reserved_columns();

    let handle = store.create(location, &schema, &config, SaveMode::ErrorIfExists).unwrap();
    assert_eq!(handle.location, location);
    assert_eq!(handle.generation, 0);
    assert_eq!(handle.rows.len(), 0);

    match store.create(location, &schema, &config, SaveMode::ErrorIfExists) {
        Err(WorkflowError::TableAlreadyExists { location: reported }) => {
            assert_eq!(reported, location);
        },
        other => panic!("expected TableAlreadyExists, got {:?}", other),
    }

    let reopened = store.open(location, &config).unwrap();
    assert_eq!(reopened.generation, 0);
    assert_eq!(reopened.rows.len(), 0);
}

#[test]
fn open_after_create_reads_the_three_declared_columns() {
    let config = test_config();
    let mut store = TableStore::new();
    let location = "s3://sequencedatain/minimal_example/t2";
    store.create(location, &reserved_columns(), &config, SaveMode::ErrorIfExists).unwrap();

    let handle = store.open(location, &config).unwrap();
    let names: Vec<&str> = handle.schema.iter().map(|c: &Column| c.name.as_str()).collect();
    assert_eq!(names, vec!["__id", "__createdat", "__updatedat"]);
    assert!(handle.schema.iter().all(|c| !c.nullable));
    assert_eq!(handle.schema[0].data_type, PrimitiveType::Utf8);
    assert_eq!(handle.schema[1].data_type, PrimitiveType::Timestamp);
    assert_eq!(handle.schema[2].data_type, PrimitiveType::Timestamp);
}

#[test]
fn open_unknown_location_reports_table_not_found() {
    let config = test_config();
    let store = TableStore::new();
    match store.open("s3://sequencedatain/minimal_example/absent", &config) {
        Err(WorkflowError::TableNotFound { location }) => {
            assert_eq!(location, "s3://sequencedatain/minimal_example/absent");
        },
        other => panic!("expected TableNotFound, got {:?}", other),
    }
}

#[test]
fn create_ignore_keeps_the_existing_table() {
    let config = test_config();
    let mut store = TableStore::new();
    let location = "s3://sequencedatain/minimal_example/t3";
    let handle = store.create(location, &reserved_columns(), &config, SaveMode::ErrorIfExists).unwrap();
    let seed = vec![row("a", 1, 1)];
    merge_all(&mut store, &handle, &seed).unwrap();

    let kept = store.create(location, &reserved_columns(), &config, SaveMode::Ignore).unwrap();
    assert_eq!(kept.generation, 1);
    assert_eq!(kept.rows.len(), 1);
}

#[test]
fn create_overwrite_commits_a_new_empty_generation() {
    let config = test_config();
    let mut store = TableStore::new();
    let location = "s3://sequencedatain/minimal_example/t4";
    let handle = store.create(location, &reserved_columns(), &config, SaveMode::ErrorIfExists).unwrap();
    let seed = vec![row("a", 1, 1)];
    merge_all(&mut store, &handle, &seed).unwrap();

    let wiped = store.create(location, &reserved_columns(), &config, SaveMode::Overwrite).unwrap();
    assert_eq!(wiped.generation, 2);
    assert_eq!(wiped.rows.len(), 0);
}

#[test]
fn merging_empty_batch_changes_nothing_and_commits_no_generation() {
    let config = test_config();
    let mut store = TableStore::new();
    let location = "s3://sequencedatain/minimal_example/t5";
    let handle = store.create(location, &reserved_columns(), &config, SaveMode::ErrorIfExists).unwrap();

    let outcome = merge_all(&mut store, &handle, &Vec::new()).unwrap();
    assert_eq!(outcome.metrics.rows_updated, 0);
    assert_eq!(outcome.metrics.rows_inserted, 0);
    assert_eq!(outcome.handle.generation, 0);

    let reopened = store.open(location, &config).unwrap();
    assert_eq!(reopened.generation, 0);
    assert_eq!(reopened.rows.len(), 0);
}

#[test]
fn merge_updates_matched_row_and_inserts_unmatched_row() {
    let config = test_config();
    let mut store = TableStore::new();
    let location = "s3://sequencedatain/minimal_example/t6";
    let created = store.create(location, &reserved_columns(), &config, SaveMode::ErrorIfExists).unwrap();

    let seed = vec![row("a", 10, 10)];
    let seeded = merge_all(&mut store, &created, &seed).unwrap();
    assert_eq!(seeded.metrics.rows_updated, 0);
    assert_eq!(seeded.metrics.rows_inserted, 1);
    assert_eq!(seeded.handle.generation, 1);

    let batch = vec![row("a", 10, 20), row("b", 20, 20)];
    let outcome = merge_all(&mut store, &seeded.handle, &batch).unwrap();
    assert_eq!(outcome.metrics.rows_updated, 1);
    assert_eq!(outcome.metrics.rows_inserted, 1);
    assert_eq!(outcome.handle.generation, 2);

    let reopened = store.open(location, &config).unwrap();
    assert_eq!(reopened.rows.len(), 2);
    assert_eq!(reopened.rows[0].id, "a");
    assert_eq!(reopened.rows[0].updated_at, 20);
    assert_eq!(reopened.rows[1].id, "b");
    assert_eq!(reopened.rows[1].created_at, 20);
}

#[test]
fn second_merge_against_stale_generation_is_rejected() {
    let config = test_config();
    let mut store = TableStore::new();
    let location = "s3://sequencedatain/minimal_example/t7";
    let created = store.create(location, &reserved_columns(), &config, SaveMode::ErrorIfExists).unwrap();

    let first = vec![row("a", 1, 1)];
    let committed = merge_all(&mut store, &created, &first).unwrap();
    assert_eq!(committed.handle.generation, 1);

    let second = vec![row("b", 2, 2)];
    match merge_all(&mut store, &created, &second) {
        Err(WorkflowError::ConcurrentModification {
            location: reported,
            expected_generation,
            actual_generation,
        }) => {
            assert_eq!(reported, location);
            assert_eq!(expected_generation, 0);
            assert_eq!(actual_generation, 1);
        },
        other => panic!("expected ConcurrentModification, got {:?}", other),
    }

    let reopened = store.open(location, &config).unwrap();
    assert_eq!(reopened.generation, 1);
    assert_eq!(reopened.rows.len(), 1);
    assert_eq!(reopened.rows[0].id, "a");
}

#[test]
fn duplicate_merge_keys_in_source_are_ambiguous() {
    let config = test_config();
    let mut store = TableStore::new();
    let location = "s3://sequencedatain/minimal_example/t8";
    let created = store.create(location, &reserved_columns(), &config, SaveMode::ErrorIfExists).unwrap();

    let seed = vec![row("a", 1, 1)];
    let seeded = merge_all(&mut store, &created, &seed).unwrap();

    let batch = vec![row("a", 2, 2), row("a", 3, 3)];
    match merge_all(&mut store, &seeded.handle, &batch) {
        Err(WorkflowError::AmbiguousMatch { key }) => {
            assert_eq!(key, "a");
        },
        other => panic!("expected AmbiguousMatch, got {:?}", other),
    }

    let reopened = store.open(location, &config).unwrap();
    assert_eq!(reopened.generation, 1);
    assert_eq!(reopened.rows.len(), 1);
    assert_eq!(reopened.rows[0].updated_at, 1);
}

#[test]
fn unsupported_predicate_fails_merge_execution() {
    let config = test_config();
    let mut store = TableStore::new();
    let location = "s3://sequencedatain/minimal_example/t9";
    let created = store.create(location, &reserved_columns(), &config, SaveMode::ErrorIfExists).unwrap();

    let predicate = JoinPredicate {
        target_column: "__createdat".to_string(),
        source_column: "source.__createdat".to_string(),
    };
    let batch = vec![row("a", 1, 1)];
    let result = store.merge(
        &created,
        &batch,
        &predicate,
        MatchedAction::UpdateAll,
        NotMatchedAction::Insert,
        "source",
    );
    match result {
        Err(WorkflowError::MergeExecutionFailed { cause }) => {
            assert_eq!(cause, "unsupported merge predicate");
        },
        other => panic!("expected MergeExecutionFailed, got {:?}", other),
    }
}

#[test]
fn merge_against_unknown_location_reports_table_not_found() {
    let mut store = TableStore::new();
    let stranger = TableHandle {
        location: "s3://sequencedatain/minimal_example/ghost".to_string(),
        generation: 0,
        schema: reserved_columns(),
        rows: Vec::new(),
    };
    let batch = vec![row("a", 1, 1)];
    match merge_all(&mut store, &stranger, &batch) {
        Err(WorkflowError::TableNotFound { location }) => {
            assert_eq!(location, "s3://sequencedatain/minimal_example/ghost");
        },
        other => panic!("expected TableNotFound, got {:?}", other),
    }
}

#[test]
fn skipping_unmatched_rows_inserts_nothing() {
    let config = test_config();
    let mut store = TableStore::new();
    let location = "s3://sequencedatain/minimal_example/t10";
    let created = store.create(location, &reserved_columns(), &config, SaveMode::ErrorIfExists).unwrap();

    let batch = vec![row("a", 1, 1)];
    let outcome = store
        .merge(
            &created,
            &batch,
            &key_predicate(),
            MatchedAction::UpdateAll,
            NotMatchedAction::Skip,
            "source",
        )
        .unwrap();
    assert_eq!(outcome.metrics.rows_inserted, 0);
    assert_eq!(outcome.metrics.rows_updated, 0);
    assert_eq!(outcome.handle.generation, 0);
}

#[test]
fn skipping_matched_rows_keeps_target_values() {
    let config = test_config();
    let mut store = TableStore::new();
    let location = "s3://sequencedatain/minimal_example/t11";
    let created = store.create(location, &reserved_columns(), &config, SaveMode::ErrorIfExists).unwrap();
    let seed = vec![row("a", 1, 1)];
    let seeded = merge_all(&mut store, &created, &seed).unwrap();

    let batch = vec![row("a", 9, 9)];
    let outcome = store
        .merge(
            &seeded.handle,
            &batch,
            &key_predicate(),
            MatchedAction::Skip,
            NotMatchedAction::Insert,
            "source",
        )
        .unwrap();
    assert_eq!(outcome.metrics.rows_updated, 0);
    assert_eq!(outcome.metrics.rows_inserted, 0);
    assert_eq!(outcome.handle.generation, 1);

    let reopened = store.open(location, &config).unwrap();
    assert_eq!(reopened.rows[0].updated_at, 1);
}
