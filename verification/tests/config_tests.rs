use delta_upsert::config::StorageOptions;
use delta_upsert::error::WorkflowError;

fn full_values() -> [Option<String>; 6] {
    [
        Some("true".to_string()),
        Some("http://localhost:9000".to_string()),
        Some("eu-west-1".to_string()),
        Some("minio".to_string()),
        Some("minio-secret".to_string()),
        Some("sequencedatain".to_string()),
    ]
}

fn resolve_from(values: [Option<String>; 6]) -> Result<StorageOptions, WorkflowError> {
    let [a, b, c, d, e, f] = values;
    StorageOptions::resolve(a, b, c, d, e, f)
}

#[test]
fn resolve_succeeds_on_full_configuration() {
    let config = resolve_from(full_values()).unwrap();
    assert_eq!(config.allow_http, "true");
    assert_eq!(config.endpoint_url, "http://localhost:9000");
    assert_eq!(config.region, "eu-west-1");
    assert_eq!(config.access_key_id, "minio");
    assert_eq!(config.secret_access_key, "minio-secret");
    assert_eq!(config.bucket_name, "sequencedatain");
}

#[test]
fn resolve_reports_each_missing_key() {
    let expected_keys = [
        "ALLOW_HTTP",
        "MINIO_URL",
        "MINIO_STORAGE_REGION",
        "MINIO_LOGIN",
        "MINIO_PASSWORD",
        "MINIO_SOURCE_BUCKET",
    ];
    for position in 0..6 {
        let mut values = full_values();
        values[position] = None;
        match resolve_from(values) {
            Err(WorkflowError::ConfigMissing { key }) => {
                assert_eq!(key, expected_keys[position]);
            },
            other => panic!("expected ConfigMissing, got {:?}", other),
        }
    }
}

#[test]
fn resolve_rejects_empty_value() {
    let mut values = full_values();
    values[2] = Some(String::new());
    match resolve_from(values) {
        Err(WorkflowError::ConfigMissing { key }) => {
            assert_eq!(key, "MINIO_STORAGE_REGION");
        },
        other => panic!("expected ConfigMissing, got {:?}", other),
    }
}

#[test]
fn resolve_reports_first_missing_key() {
    let mut values = full_values();
    values[1] = None;
    values[4] = None;
    match resolve_from(values) {
        Err(WorkflowError::ConfigMissing { key }) => {
            assert_eq!(key, "MINIO_URL");
        },
        other => panic!("expected ConfigMissing, got {:?}", other),
    }
}

#[test]
fn to_pairs_lists_backend_parameters_in_order() {
    let config = resolve_from(full_values()).unwrap();
    let pairs = config.to_pairs();
    let expected = [
        ("allow_http", "true"),
        ("endpoint_url", "http://localhost:9000"),
        ("region", "eu-west-1"),
        ("AWS_REGION", "eu-west-1"),
        ("access_key_id", "minio"),
        ("secret_access_key", "minio-secret"),
        ("bucket_name", "sequencedatain"),
    ];
    assert_eq!(pairs.len(), expected.len());
    for (pair, (key, value)) in pairs.iter().zip(expected.iter()) {
        assert_eq!(pair.0, *key);
        assert_eq!(pair.1, *value);
    }
}

#[test]
fn to_hashmap_duplicates_region_under_both_keys() {
    let config = resolve_from(full_values()).unwrap();
    let map = config.to_hashmap();
    assert_eq!(map.len(), 7);
    assert_eq!(map.get("allow_http").unwrap(), "true");
    assert_eq!(map.get("endpoint_url").unwrap(), "http://localhost:9000");
    assert_eq!(map.get("region").unwrap(), "eu-west-1");
    assert_eq!(map.get("AWS_REGION").unwrap(), "eu-west-1");
    assert_eq!(map.get("access_key_id").unwrap(), "minio");
    assert_eq!(map.get("secret_access_key").unwrap(), "minio-secret");
    assert_eq!(map.get("bucket_name").unwrap(), "sequencedatain");
}
