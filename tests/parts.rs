use s3s_rados::config::{port_from, ConfigErrorKind, Settings};
use s3s_rados::error::ErrorCode;
use s3s_rados::ids::blob_key_text;
use s3s_rados::naming::{choose_region, default_region, get_location, location_for, partition_name};
use s3s_rados::service::{check_storage_class, gc_backoff, retry_step, RetryStep, TxError, MAX_ATTEMPTS};

fn entries(pairs: &[(&str, &str)]) -> Vec<(String, String)> {
    pairs.iter().map(|(k, v)| (k.to_string(), v.to_string())).collect()
}

fn full() -> Vec<(String, String)> {
    entries(&[
        ("api.host", "0.0.0.0"),
        ("api.port", "8014"),
        ("db.host", "localhost"),
        ("db.port", "5433"),
        ("db.db_name", "s3srados"),
        ("db.user", "yugabyte"),
        ("db.password", "pw"),
        ("storage.host", "minio"),
        ("storage.port", "+9000"),
        ("storage.access_key", "a"),
        ("storage.secret_key", "s"),
        ("storage.insecure", "Yes"),
        ("auth.access_key", "x"),
        ("auth.secret_key", "y"),
    ])
}

#[test]
fn settings_from_entries() {
    let s = Settings::new(&full()).unwrap();
    assert_eq!(s.api.port, 8014);
    assert_eq!(s.api.domain, None);
    assert_eq!(s.db.port, 5433);
    assert_eq!(s.storage.port, 9000);
    assert!(s.storage.insecure);
    assert_eq!(s.storage.bucket, None);
    assert_eq!(s.auth.secret_key, "y");
}

#[test]
fn settings_later_entries_override() {
    let mut e = full();
    e.push(("api.port".to_string(), "80".to_string()));
    e.push(("storage.bucket".to_string(), "one".to_string()));
    e.push(("storage.insecure".to_string(), "off".to_string()));
    let s = Settings::new(&e).unwrap();
    assert_eq!(s.api.port, 80);
    assert_eq!(s.storage.bucket, Some("one".to_string()));
    assert!(!s.storage.insecure);
}

#[test]
fn settings_errors() {
    let e: Vec<(String, String)> = full().into_iter().filter(|(k, _)| k != "db.user").collect();
    let err = Settings::new(&e).unwrap_err();
    assert_eq!(err.key, "db.user");
    assert_eq!(err.kind, ConfigErrorKind::Missing);
    let mut e = full();
    e.push(("db.port".to_string(), "65536".to_string()));
    let err = Settings::new(&e).unwrap_err();
    assert_eq!(err.key, "db.port");
    assert_eq!(err.kind, ConfigErrorKind::Invalid);
    let mut e = full();
    e.push(("storage.insecure".to_string(), "maybe".to_string()));
    assert_eq!(Settings::new(&e).unwrap_err().kind, ConfigErrorKind::Invalid);
    let mut e = full();
    e.push(("api.port".to_string(), "8a".to_string()));
    assert_eq!(Settings::new(&e).unwrap_err().key, "api.port");
}

#[test]
fn partition_names() {
    assert_eq!(partition_name("my-bucket"), "objects_bucket_my_bucket");
    assert_eq!(partition_name("a.b-c_d9"), "objects_bucket_a_b_c_d9");
    assert_eq!(partition_name(""), "objects_bucket_");
}

#[test]
fn uuid_text_form() {
    assert_eq!(
        blob_key_text(0x67e5504410b1426f9247bb680e5fe0c8),
        "67e55044-10b1-426f-9247-bb680e5fe0c8"
    );
    assert_eq!(blob_key_text(0), "00000000-0000-0000-0000-000000000000");
}

#[test]
fn locations() {
    let loc = location_for(&None, "r1", "photos", 0xff);
    assert_eq!(loc.region, "r1");
    assert_eq!(loc.backend, "photos-00000000-0000-0000-0000-0000000000ff");
    let loc = location_for(&Some("shared".to_string()), "r1", "photos", 0xff);
    assert_eq!(loc.backend, "shared");
    let a = get_location(&None, "r", "b");
    let b = get_location(&None, "r", "b");
    assert!(a.backend.starts_with("b-"));
    assert_eq!(a.backend.len(), 2 + 36);
    assert_ne!(a.backend, b.backend);
    // a drawn id is a version-4 UUID of the RFC variant
    let text: Vec<char> = a.backend.chars().collect();
    assert_eq!(text[2 + 14], '4');
    assert!("89ab".contains(text[2 + 19]));
    assert_eq!(default_region(), "default");
    assert_eq!(choose_region(&Some("eu".to_string()), "default"), "eu");
    assert_eq!(choose_region(&None, "default"), "default");
}

#[test]
fn retry_policy() {
    assert_eq!(retry_step(1, TxError::Transient), RetryStep::Retry);
    assert_eq!(retry_step(MAX_ATTEMPTS - 1, TxError::Transient), RetryStep::Retry);
    assert_eq!(retry_step(MAX_ATTEMPTS, TxError::Transient), RetryStep::Fail(ErrorCode::InternalError));
    assert_eq!(retry_step(1, TxError::Domain(ErrorCode::NoSuchBucket)), RetryStep::Fail(ErrorCode::NoSuchBucket));
}

#[test]
fn storage_classes() {
    assert!(check_storage_class(&None).is_ok());
    assert!(check_storage_class(&Some("STANDARD".to_string())).is_ok());
    assert_eq!(check_storage_class(&Some("GLACIER".to_string())).unwrap_err(), ErrorCode::InvalidStorageClass);
}

#[test]
fn error_code_names() {
    assert_eq!(ErrorCode::BucketNotEmpty.as_str(), "BucketNotEmpty");
    assert_eq!(ErrorCode::NoSuchKey.as_str(), "NoSuchKey");
    assert_eq!(ErrorCode::InternalError.as_str(), "InternalError");
}

#[test]
fn collector_backoff() {
    assert_eq!(gc_backoff(0, 1000, 300_000), 1000);
    assert_eq!(gc_backoff(3, 1000, 300_000), 8000);
    assert_eq!(gc_backoff(9, 1000, 300_000), 300_000);
    assert_eq!(gc_backoff(100, 1000, 300_000), 300_000);
    assert_eq!(gc_backoff(0, 500, 100), 100);
    assert_eq!(gc_backoff(u32::MAX, u64::MAX, u64::MAX), u64::MAX);
}

#[test]
fn ports_from_configuration_numbers() {
    assert_eq!(port_from(Some(65535)), Some(65535));
    assert_eq!(port_from(Some(65536)), None);
    assert_eq!(port_from(None), None);
    // the configuration crate reads its boolean words as numbers too
    let mut e = full();
    e.push(("api.port".to_string(), "on".to_string()));
    assert_eq!(Settings::new(&e).unwrap().api.port, 1);
    let mut e = full();
    e.push(("storage.insecure".to_string(), "TRUE".to_string()));
    assert!(Settings::new(&e).unwrap().storage.insecure);
}
