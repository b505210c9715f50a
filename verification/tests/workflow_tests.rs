use delta_upsert::error::WorkflowError;
use delta_upsert::location::{fresh_table_uri, table_uri};
use delta_upsert::schema::PrimitiveType;
use delta_upsert::workflow::{advance, start, Stage, WorkflowState};

#[test]
fn table_uri_joins_scheme_bucket_prefix_and_token() {
    let uri = table_uri("sequencedatain", "token-1");
    assert_eq!(uri, "s3://sequencedatain/minimal_example/token-1");
}

#[test]
fn fresh_table_uri_ends_in_a_uuid_shaped_token() {
    let uri = fresh_table_uri("sequencedatain");
    let prefix = "s3://sequencedatain/minimal_example/";
    assert!(uri.starts_with(prefix));
    let token = &uri[prefix.len()..];
    assert_eq!(token.len(), 36);
    for (i, c) in token.chars().enumerate() {
        if i == 8 || i == 13 || i == 18 || i == 23 {
            assert_eq!(c, '-');
        } else {
            assert!(c.is_ascii_hexdigit() && !c.is_ascii_uppercase());
        }
    }
}

#[test]
fn fresh_table_uris_differ_between_runs() {
    let first = fresh_table_uri("sequencedatain");
    let second = fresh_table_uri("sequencedatain");
    assert_ne!(first, second);
}

#[test]
fn primitive_types_name_backend_types() {
    assert_eq!(PrimitiveType::Utf8.backend_name(), "string");
    assert_eq!(PrimitiveType::Timestamp.backend_name(), "timestamp");
}

#[test]
fn workflow_advances_through_all_five_steps() {
    let mut state = start();
    let stages = [
        Stage::ResolveConfig,
        Stage::CreateTable,
        Stage::OpenTable,
        Stage::LoadSource,
        Stage::ExecuteMerge,
    ];
    for expected in stages {
        match state {
            WorkflowState::Pending { stage } => assert_eq!(stage, expected),
            other => panic!("expected a pending step, got {:?}", other),
        }
        state = advance(state, Ok(()));
    }
    assert!(matches!(state, WorkflowState::Done));
}

#[test]
fn workflow_failure_records_the_failing_step() {
    let mut state = start();
    state = advance(state, Ok(()));
    state = advance(state, Ok(()));
    state = advance(state, Ok(()));
    let failure = WorkflowError::SourceLoadFailed {
        path: "minimal.csv".to_string(),
        cause: "file not found".to_string(),
    };
    state = advance(state, Err(failure));
    match state {
        WorkflowState::Failed { stage, error } => {
            assert_eq!(stage, Stage::LoadSource);
            match error {
                WorkflowError::SourceLoadFailed { path, cause } => {
                    assert_eq!(path, "minimal.csv");
                    assert_eq!(cause, "file not found");
                },
                other => panic!("expected SourceLoadFailed, got {:?}", other),
            }
        },
        other => panic!("expected a failed run, got {:?}", other),
    }
}

#[test]
fn stage_names_identify_each_step() {
    assert_eq!(Stage::ResolveConfig.name(), "resolve configuration");
    assert_eq!(Stage::CreateTable.name(), "create table");
    assert_eq!(Stage::OpenTable.name(), "open table");
    assert_eq!(Stage::LoadSource.name(), "load source");
    assert_eq!(Stage::ExecuteMerge.name(), "execute merge");
}
