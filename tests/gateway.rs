use s3s_rados::error::ErrorCode;
use s3s_rados::meta_store::{Blob, BlobLocation, Key, MultipartUpload, Object, User};
use s3s_rados::service::Gateway;
use s3s_rados::store::MetaStore;

fn setup() -> Gateway {
    let mut gw = Gateway::new(None, "default".to_string());
    gw.store
        .add_user(&User {
            id: "u1".to_string(),
            name: "alice".to_string(),
            email: "alice@example.com".to_string(),
            creation_date: 0,
        })
        .unwrap();
    gw.store
        .add_key(&Key {
            access_key: "AK".to_string(),
            secret_key: "SK".to_string(),
            account: "u1".to_string(),
        })
        .unwrap();
    gw
}

fn create_bucket(gw: &mut Gateway, name: &str, region: &str) -> BlobLocation {
    let (user, loc) = gw
        .create_bucket_begin(&Some("AK".to_string()), name, &Some(region.to_string()), 7, 10)
        .unwrap();
    gw.create_bucket_finish(name, &user, &loc, Ok(()), 10).unwrap();
    loc
}

fn put(gw: &mut Gateway, bucket: &str, key: &str, size: i64, blob: u128, etag: &str, now: i64) -> Option<Blob> {
    let pending = gw.put_object_begin(true, bucket, key, &None, true, Some(size), blob, now).unwrap();
    let (_, prev) = gw.put_object_finish(&pending, Ok((etag.to_string(), size)), now).unwrap();
    prev
}

#[test]
fn put_get_list() {
    let mut gw = setup();
    let loc = create_bucket(&mut gw, "b1", "r1");
    assert_eq!(loc.region, "r1");
    assert!(loc.backend.starts_with("b1-"));
    assert_eq!(put(&mut gw, "b1", "k", 5, 1, "etag-hello", 100).map(|b| b.id), None);
    let plan = gw.get_object("b1", "k").unwrap();
    assert_eq!(plan.size, 5);
    assert_eq!(plan.etag, "etag-hello");
    assert_eq!(plan.last_modified, 100);
    assert_eq!(plan.key, "00000000-0000-0000-0000-000000000001");
    let page = gw.store.list_objects("b1", &None, &None, &None, None).unwrap();
    assert_eq!(page.objects.len(), 1);
    assert_eq!(page.objects[0].0.oid, "k");
    assert_eq!(page.objects[0].1.as_ref().unwrap().size, 5);
    assert!(page.common_prefixes.is_empty());
    assert_eq!(page.marker, None);
}

#[test]
fn overwrite_queues_first_blob() {
    let mut gw = setup();
    create_bucket(&mut gw, "b1", "r1");
    assert!(put(&mut gw, "b1", "dup", 4, 11, "etag-a", 100).is_none());
    let prev = put(&mut gw, "b1", "dup", 4, 12, "etag-b", 200).unwrap();
    assert_eq!(prev.id, 11);
    assert_eq!(prev.etag, "etag-a");
    let plan = gw.get_object("b1", "dup").unwrap();
    assert_eq!(plan.etag, "etag-b");
    let page = gw.store.list_objects("b1", &None, &None, &None, None).unwrap();
    assert_eq!(page.objects.len(), 1);
    let queued = gw.store.queued_blobs();
    assert_eq!(queued.len(), 1);
    assert_eq!(queued[0].id, 11);
    // the collector deletes the replaced blob
    gw.store.delete_blob_gc(&prev).unwrap();
    assert!(gw.store.queued_blobs().is_empty());
}

#[test]
fn delete_bucket_requires_empty() {
    let mut gw = setup();
    let loc = create_bucket(&mut gw, "b2", "r1");
    put(&mut gw, "b2", "only", 3, 21, "e", 100);
    assert_eq!(gw.delete_bucket(true, "b2").unwrap_err(), ErrorCode::BucketNotEmpty);
    let blob = gw.store.delete_object("b2", "only").unwrap();
    assert_eq!(blob.id, 21);
    let (job, job_loc) = gw.delete_bucket(true, "b2").unwrap();
    assert_eq!(job_loc.backend, loc.backend);
    assert!(gw.store.get_bucket("b2").is_none());
    assert_eq!(gw.store.partition_table("b2"), None);
    let jobs = gw.store.bucket_jobs();
    assert_eq!(jobs.len(), 1);
    assert_eq!(jobs[0].id, job);
    assert_eq!(jobs[0].location.backend, loc.backend);
    assert_eq!(jobs[0].location.region, "r1");
    // the partition is gone: no object can be committed into the bucket
    let object = Object { bucket_name: "b2".to_string(), oid: "x".to_string(), last_modified: 0, blob_id: Some(22) };
    let b = Blob { id: 22, size: 1, placement: loc.clone(), etag: "e".to_string() };
    assert_eq!(gw.store.commit_object(&object, &b, 300).unwrap_err(), ErrorCode::NoSuchBucket);
    gw.store.delete_bucket_complete(job);
    assert!(gw.store.bucket_jobs().is_empty());
}

#[test]
fn multipart_upload() {
    let mut gw = setup();
    create_bucket(&mut gw, "b1", "r1");
    let bucket = gw.create_multipart_begin(true, "b1", &None).unwrap();
    let upload = MultipartUpload {
        bucket: bucket.name.clone(),
        oid: "big".to_string(),
        upload_id: "up-1".to_string(),
        blob_id: 31,
        uploaded_at: 0,
        location: bucket.location.clone(),
    };
    gw.store.create_multipart(&upload, 50).unwrap();
    let found = gw.find_upload(true, "b1", "big", "up-1").unwrap();
    assert_eq!(found.blob_id, 31);
    assert_eq!(found.uploaded_at, 50);
    assert_eq!(gw.find_upload(true, "b1", "big", "up-2").unwrap_err(), ErrorCode::NoSuchUpload);
    let (ts, prev) = gw.complete_multipart_finish(&found, 10, "etag-mp".to_string(), 60).unwrap();
    assert_eq!(ts, 60);
    assert!(prev.is_none());
    let plan = gw.get_object("b1", "big").unwrap();
    assert_eq!(plan.size, 10);
    assert_eq!(plan.etag, "etag-mp");
    assert!(gw.store.list_multipart("b1").is_empty());
}

#[test]
fn invalid_storage_class_leaves_no_temp_blob() {
    let mut gw = setup();
    create_bucket(&mut gw, "b1", "r1");
    let r = gw.put_object_begin(true, "b1", "k", &Some("GLACIER".to_string()), true, Some(1), 41, 100);
    assert_eq!(r.unwrap_err(), ErrorCode::InvalidStorageClass);
    assert!(gw.store.expired_temp_blobs(i64::MAX, -1).is_empty());
}

#[test]
fn list_with_prefix_and_delimiter() {
    let mut gw = setup();
    create_bucket(&mut gw, "b1", "r1");
    put(&mut gw, "b1", "a/x", 1, 51, "e", 100);
    put(&mut gw, "b1", "a/y", 1, 52, "e", 100);
    put(&mut gw, "b1", "a/sub/z", 1, 53, "e", 100);
    put(&mut gw, "b1", "b/w", 1, 54, "e", 100);
    let page = gw
        .store
        .list_objects("b1", &Some("a/".to_string()), &Some("/".to_string()), &None, None)
        .unwrap();
    let keys: Vec<String> = page.objects.iter().map(|(o, _)| o.oid.clone()).collect();
    assert_eq!(keys, vec!["a/x".to_string(), "a/y".to_string()]);
    assert_eq!(page.common_prefixes, vec!["a/sub/".to_string()]);
    assert_eq!(page.marker, None);
}

#[test]
fn list_pages_with_marker() {
    let mut gw = setup();
    create_bucket(&mut gw, "b1", "r1");
    put(&mut gw, "b1", "c", 1, 61, "e", 100);
    put(&mut gw, "b1", "a", 1, 62, "e", 100);
    put(&mut gw, "b1", "b", 1, 63, "e", 100);
    let first = gw.store.list_objects("b1", &None, &None, &None, Some(2)).unwrap();
    let keys: Vec<String> = first.objects.iter().map(|(o, _)| o.oid.clone()).collect();
    assert_eq!(keys, vec!["a".to_string(), "b".to_string()]);
    assert_eq!(first.marker, Some("b".to_string()));
    let second = gw.store.list_objects("b1", &None, &None, &first.marker, Some(2)).unwrap();
    let keys: Vec<String> = second.objects.iter().map(|(o, _)| o.oid.clone()).collect();
    assert_eq!(keys, vec!["c".to_string()]);
    assert_eq!(second.marker, None);
    assert_eq!(gw.store.list_objects("b1", &None, &None, &None, Some(-1)).unwrap_err(), ErrorCode::InvalidArgument);
    let empty = gw.store.list_objects("b1", &None, &None, &None, Some(0)).unwrap();
    assert!(empty.objects.is_empty());
    assert_eq!(empty.marker, None);
}

#[test]
fn put_then_get_returns_put_blob() {
    let mut gw = setup();
    create_bucket(&mut gw, "b1", "r1");
    put(&mut gw, "b1", "k", 7, 71, "etag-7", 100);
    let (o, b) = gw.store.get_object("b1", "k").unwrap();
    let b = b.unwrap();
    assert_eq!(o.blob_id, Some(71));
    assert_eq!(b.size, 7);
    assert_eq!(b.etag, "etag-7");
}

#[test]
fn last_modified_never_goes_back() {
    let mut gw = setup();
    create_bucket(&mut gw, "b1", "r1");
    put(&mut gw, "b1", "k", 1, 81, "e", 500);
    put(&mut gw, "b1", "k", 1, 82, "e", 300);
    let plan = gw.get_object("b1", "k").unwrap();
    assert_eq!(plan.last_modified, 500);
    put(&mut gw, "b1", "k", 1, 83, "e", 900);
    assert_eq!(gw.get_object("b1", "k").unwrap().last_modified, 900);
}

#[test]
fn delete_then_get_is_no_such_key() {
    let mut gw = setup();
    create_bucket(&mut gw, "b1", "r1");
    put(&mut gw, "b1", "k", 1, 91, "e", 100);
    gw.store.delete_object("b1", "k").unwrap();
    assert_eq!(gw.get_object("b1", "k").unwrap_err(), ErrorCode::NoSuchKey);
    assert_eq!(gw.store.delete_object("b1", "k").unwrap_err(), ErrorCode::NoSuchKey);
    assert_eq!(gw.store.queued_blobs()[0].id, 91);
}

#[test]
fn bucket_name_can_be_reused() {
    let mut gw = setup();
    create_bucket(&mut gw, "b3", "r1");
    gw.delete_bucket(true, "b3").unwrap();
    create_bucket(&mut gw, "b3", "r2");
    assert_eq!(gw.store.get_bucket("b3").unwrap().location.region, "r2");
}

#[test]
fn create_bucket_errors() {
    let mut gw = setup();
    assert_eq!(gw.create_bucket_begin(&None, "b", &None, 1, 0).unwrap_err(), ErrorCode::AccessDenied);
    assert_eq!(
        gw.create_bucket_begin(&Some("nope".to_string()), "b", &None, 1, 0).unwrap_err(),
        ErrorCode::NoSuchKey
    );
    let (user, loc) = gw.create_bucket_begin(&Some("AK".to_string()), "b", &None, 1, 0).unwrap();
    assert_eq!(loc.region, "default");
    assert_eq!(loc.backend, "b-00000000-0000-0000-0000-000000000001");
    // a second creator finds the name reserved
    assert_eq!(
        gw.create_bucket_begin(&Some("AK".to_string()), "b", &None, 2, 0).unwrap_err(),
        ErrorCode::BucketAlreadyExists
    );
    // the backing store failed: the reservation goes
    assert_eq!(gw.create_bucket_finish("b", &user, &loc, Err(ErrorCode::InternalError), 0).unwrap_err(), ErrorCode::InternalError);
    assert!(gw.create_bucket_begin(&Some("AK".to_string()), "b", &None, 3, 0).is_ok());
}

#[test]
fn static_bucket_placement() {
    let mut gw = Gateway::new(Some("shared".to_string()), "default".to_string());
    gw.store
        .add_user(&User { id: "u".to_string(), name: "n".to_string(), email: "e".to_string(), creation_date: 0 })
        .unwrap();
    gw.store
        .add_key(&Key { access_key: "k".to_string(), secret_key: "s".to_string(), account: "u".to_string() })
        .unwrap();
    let (_, loc) = gw.create_bucket_begin(&Some("k".to_string()), "b", &None, 5, 0).unwrap();
    assert_eq!(loc.backend, "shared");
}

#[test]
fn put_errors_and_failed_upload() {
    let mut gw = setup();
    assert_eq!(gw.put_object_begin(true, "none", "k", &None, true, Some(1), 1, 0).unwrap_err(), ErrorCode::NoSuchBucket);
    create_bucket(&mut gw, "b1", "r1");
    assert_eq!(gw.put_object_begin(false, "b1", "k", &None, true, Some(1), 1, 0).unwrap_err(), ErrorCode::AccessDenied);
    assert_eq!(gw.put_object_begin(true, "b1", "k", &None, true, None, 1, 0).unwrap_err(), ErrorCode::IncompleteBody);
    assert_eq!(gw.put_object_begin(true, "b1", "k", &None, false, Some(1), 1, 0).unwrap_err(), ErrorCode::IncompleteBody);
    assert!(gw.store.expired_temp_blobs(100, 10).is_empty());
    let pending = gw.put_object_begin(true, "b1", "k", &Some("STANDARD".to_string()), true, Some(1), 1, 0).unwrap();
    assert_eq!(gw.store.expired_temp_blobs(100, 10).len(), 1);
    let r = gw.put_object_finish(&pending, Err(ErrorCode::InternalError), 0);
    assert_eq!(r.unwrap_err(), ErrorCode::InternalError);
    assert!(gw.store.expired_temp_blobs(100, 10).is_empty());
    assert_eq!(gw.get_object("b1", "k").unwrap_err(), ErrorCode::NoSuchKey);
}

#[test]
fn expired_temp_blobs_by_age() {
    let mut store = MetaStore::new();
    let loc = BlobLocation { region: "r".to_string(), backend: "x".to_string() };
    store.create_blob_temp(1, &loc, 100).unwrap();
    store.create_blob_temp(2, &loc, 200).unwrap();
    assert_eq!(store.create_blob_temp(2, &loc, 200).unwrap_err(), ErrorCode::InternalError);
    let old = store.expired_temp_blobs(260, 100);
    assert_eq!(old.len(), 1);
    assert_eq!(old[0].id, 1);
    store.delete_blob_temp(1);
    assert!(store.expired_temp_blobs(260, 100).is_empty());
}

#[test]
fn users_and_buckets_by_owner() {
    let mut gw = setup();
    let user = gw.store.get_user_by_access_key("AK").unwrap();
    assert_eq!(user.name, "alice");
    assert_eq!(gw.store.get_user_by_access_key("ak").unwrap_err(), ErrorCode::NoSuchKey);
    create_bucket(&mut gw, "b2", "r1");
    create_bucket(&mut gw, "b1", "r1");
    create_bucket(&mut gw, "a9", "r1");
    let buckets = gw.store.list_buckets_by_user("u1");
    let names: Vec<String> = buckets.iter().map(|b| b.name.clone()).collect();
    assert_eq!(names, vec!["a9".to_string(), "b1".to_string(), "b2".to_string()]);
    assert!(gw.store.list_buckets_by_user("u2").is_empty());
    assert_eq!(gw.store.add_key(&Key { access_key: "AK".to_string(), secret_key: "x".to_string(), account: "u1".to_string() }).unwrap_err(), ErrorCode::InvalidArgument);
}

#[test]
fn abort_multipart_removes_upload() {
    let mut gw = setup();
    create_bucket(&mut gw, "b1", "r1");
    let loc = gw.store.get_bucket("b1").unwrap().location;
    let upload = MultipartUpload {
        bucket: "b1".to_string(),
        oid: "k".to_string(),
        upload_id: "u".to_string(),
        blob_id: 5,
        uploaded_at: 0,
        location: loc,
    };
    gw.store.create_multipart(&upload, 1).unwrap();
    assert_eq!(gw.store.list_multipart("b1").len(), 1);
    gw.store.abort_multipart(&upload).unwrap();
    assert!(gw.store.list_multipart("b1").is_empty());
    assert_eq!(gw.store.abort_multipart(&upload).unwrap_err(), ErrorCode::NoSuchUpload);
}

#[test]
fn list_without_grouping_and_after_start() {
    let mut gw = setup();
    create_bucket(&mut gw, "b1", "r1");
    put(&mut gw, "b1", "a/x", 1, 101, "e", 100);
    put(&mut gw, "b1", "a/sub/z", 1, 102, "e", 100);
    put(&mut gw, "b1", "b", 1, 103, "e", 100);
    let page = gw
        .store
        .list_objects("b1", &None, &Some(String::new()), &Some("a/sub/z".to_string()), None)
        .unwrap();
    let keys: Vec<String> = page.objects.iter().map(|(o, _)| o.oid.clone()).collect();
    assert_eq!(keys, vec!["a/x".to_string(), "b".to_string()]);
    let page = gw.store.list_objects("b1", &None, &None, &None, None).unwrap();
    assert_eq!(page.common_prefixes, vec!["a/".to_string()]);
    assert_eq!(page.objects.len(), 1);
    assert_eq!(page.objects[0].0.oid, "b");
}

#[test]
fn put_with_mismatched_size_fails() {
    let mut gw = setup();
    create_bucket(&mut gw, "b1", "r1");
    let pending = gw.put_object_begin(true, "b1", "k", &None, true, Some(5), 111, 0).unwrap();
    let r = gw.put_object_finish(&pending, Ok(("etag".to_string(), 4)), 0);
    assert_eq!(r.unwrap_err(), ErrorCode::InternalError);
    assert!(gw.store.expired_temp_blobs(100, 10).is_empty());
    assert_eq!(gw.get_object("b1", "k").unwrap_err(), ErrorCode::NoSuchKey);
}

#[test]
fn completion_checks_credentials_first() {
    let mut gw = setup();
    assert_eq!(gw.upload_to_complete(false, "none", "k", "u").unwrap_err(), ErrorCode::AccessDenied);
    assert_eq!(gw.find_upload(false, "none", "k", "u").unwrap_err(), ErrorCode::NoSuchBucket);
    assert_eq!(gw.upload_to_complete(true, "none", "k", "u").unwrap_err(), ErrorCode::NoSuchBucket);
    create_bucket(&mut gw, "b1", "r1");
    assert_eq!(gw.find_upload(false, "b1", "k", "u").unwrap_err(), ErrorCode::AccessDenied);
    assert_eq!(gw.upload_to_complete(true, "b1", "k", "u").unwrap_err(), ErrorCode::NoSuchUpload);
}

#[test]
fn delete_empty_bucket_succeeds() {
    let mut gw = setup();
    create_bucket(&mut gw, "b4", "r1");
    assert_eq!(gw.delete_bucket(false, "b4").unwrap_err(), ErrorCode::AccessDenied);
    assert_eq!(gw.delete_bucket(true, "none").unwrap_err(), ErrorCode::NoSuchBucket);
    assert!(gw.delete_bucket(true, "b4").is_ok());
}

#[test]
fn partition_tables_follow_bucket_names() {
    let mut gw = setup();
    create_bucket(&mut gw, "a_b", "r1");
    assert_eq!(gw.store.partition_table("a_b"), Some("objects_bucket_a_b".to_string()));
    // "a-b" would share the table of "a_b"
    let (user, loc) = gw.create_bucket_begin(&Some("AK".to_string()), "a-b", &None, 9, 0).unwrap();
    assert_eq!(gw.create_bucket_finish("a-b", &user, &loc, Ok(()), 0).unwrap_err(), ErrorCode::InternalError);
    assert!(gw.store.get_bucket("a-b").is_none());
    assert_eq!(gw.store.partition_table("a-b"), None);
    gw.delete_bucket(true, "a_b").unwrap();
    assert_eq!(gw.store.partition_table("a_b"), None);
    create_bucket(&mut gw, "a-b", "r1");
    assert_eq!(gw.store.partition_table("a-b"), Some("objects_bucket_a_b".to_string()));
}
