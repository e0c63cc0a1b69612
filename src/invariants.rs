//! Each transaction of the metadata store keeps the store's invariant.
use vstd::prelude::*;
use crate::meta_store::{
    Blob, Bucket, BucketGcJob, Key, MultipartUpload, Object, Partition, PendingBucket, TempBlob,
    Timestamp, User, Uuid,
};
use crate::naming::partition_name_of;
use crate::model::{
    access_key, blob_key, bucket_key, id_key, job_key, object_key, partition_key, pending_key,
    table_key, temp_key,
    upload_key, user_key, empty_model, StoreModel,
};
use crate::table::{
    has_key_in, index_of_key, lemma_has_key_contains, lemma_push_key, lemma_row_with_key,
    lemma_without_key, lemma_without_key_keeps, without_key,
};

verus! {

pub proof fn lemma_replace_object_inv(m: StoreModel, object: Object, blob: Blob, now: Timestamp)
    requires
        m.inv(),
        m.commit_object_error(object, blob) is None,
    ensures
        m.replace_object(object, blob, now).inv(),
{
    let n = m.replace_object(object, blob, now);
    let k = (object.bucket_name@, object.oid@);
    let row = m.committed_row(object, blob, now);
    let rest = without_key(m.objects, object_key(), k);
    lemma_without_key(m.objects, object_key(), k);
    assert(object_key()(row) == k);
    lemma_push_key(rest, object_key(), row);
    lemma_push_key(m.blobs, blob_key(), blob);
    assert(n.objects == rest.push(row));
    // no old object refers to the new blob
    assert forall|o: Object| m.objects.contains(o) implies o.blob_id != Some(blob.id) by {
        if o.blob_id == Some(blob.id) {
            assert(m.has_blob(blob.id));
        }
    }
    let old = m.live_object(k.0, k.1);
    if m.has_object(k.0, k.1) {
        lemma_row_with_key(m.objects, object_key(), k);
    }
    match old {
        Some(o) => {
            assert(m.objects.contains(o));
            match o.blob_id {
                Some(id) => {
                    assert(m.referenced(id));
                    assert(!m.blobs_gc.contains(id));
                    assert(!has_key_in(m.blobs_gc, id_key(), id)) by {
                        if has_key_in(m.blobs_gc, id_key(), id) {
                            let i = choose|i: int| 0 <= i < m.blobs_gc.len() && #[trigger] id_key()(m.blobs_gc[i]) == id;
                            assert(m.blobs_gc.contains(m.blobs_gc[i]));
                        }
                    }
                    lemma_push_key(m.blobs_gc, id_key(), id);
                    assert(n.blobs_gc == m.blobs_gc.push(id));
                    // the old object was the only one that referred to its blob
                    assert forall|o2: Object| n.objects.contains(o2) implies o2.blob_id != Some(id) by {
                        if rest.contains(o2) {
                            if o2.blob_id == Some(id) {
                                assert(m.objects.contains(o2));
                                assert(o2 == o);
                                assert(object_key()(o2) == k);
                            }
                        } else {
                            assert(o2 == row);
                            assert(m.has_blob(id));
                        }
                    }
                },
                None => {},
            }
        },
        None => {},
    }
    assert forall|b: Blob| #[trigger] n.blobs.contains(b) implies n.referenced(b.id) || n.queued(b.id) by {
        if b == blob {
            assert(n.objects.contains(row));
        } else {
            assert(m.blobs.contains(b));
            if m.queued(b.id) {
                assert(n.blobs_gc.contains(b.id));
            } else {
                let o2 = choose|o2: Object| #[trigger] m.objects.contains(o2) && o2.blob_id == Some(b.id);
                if object_key()(o2) == k {
                    lemma_row_with_key(m.objects, object_key(), k);
                    lemma_has_key_contains(m.objects, object_key(), o2);
                    let i = index_of_key(m.objects, object_key(), k);
                    let j = choose|j: int| 0 <= j < m.objects.len() && m.objects[j] == o2;
                    assert(object_key()(m.objects[j]) == object_key()(m.objects[i]));
                    assert(n.blobs_gc.contains(b.id));
                } else {
                    assert(rest.contains(o2));
                    assert(n.objects.contains(o2));
                }
            }
        }
    }
    assert forall|o2: Object| #[trigger] n.objects.contains(o2) && o2.blob_id is Some implies n.has_blob(o2.blob_id->0) by {
        if o2 != row {
            assert(m.objects.contains(o2));
            assert(m.has_blob(o2.blob_id->0));
        }
    }
    assert forall|o1: Object, o2: Object|
        n.objects.contains(o1) && n.objects.contains(o2) && o1.blob_id is Some && o1.blob_id == o2.blob_id implies o1 == o2 by {
        if o1 != row && o2 != row {
            assert(m.objects.contains(o1) && m.objects.contains(o2));
        } else if o1 == row && o2 != row {
            assert(m.objects.contains(o2));
        } else if o2 == row && o1 != row {
            assert(m.objects.contains(o1));
        }
    }
    assert forall|id: Uuid| #[trigger] n.blobs_gc.contains(id) implies n.has_blob(id) && !n.referenced(id) by {
        if m.blobs_gc.contains(id) {
            assert(m.has_blob(id));
            assert(!m.referenced(id));
            assert forall|o2: Object| n.objects.contains(o2) implies o2.blob_id != Some(id) by {
                if o2 == row {
                    assert(id != blob.id);
                } else {
                    assert(m.objects.contains(o2));
                }
            }
        }
    }
    assert forall|nm: Seq<char>| #[trigger] n.has_partition(nm) <==> n.has_bucket(nm) by {
        assert(m.has_partition(nm) <==> m.has_bucket(nm));
    }
    assert forall|o2: Object| #[trigger] n.objects.contains(o2) implies n.has_partition(o2.bucket_name@) by {
        if o2 != row {
            assert(m.objects.contains(o2));
        }
    }
    assert forall|o2: Object| #[trigger] n.objects.contains(o2) implies o2.last_modified <= n.clock by {
        if o2 != row {
            assert(m.objects.contains(o2));
        }
    }
}


/// The invariant holds of a store that differs from a sound one only in
/// tables that no other table refers to, if those keep their keys unique.
proof fn lemma_inv_frame(m: StoreModel, n: StoreModel)
    requires
        m.inv(),
        n.keys_unique(),
        n.objects == m.objects,
        n.blobs == m.blobs,
        n.blobs_gc == m.blobs_gc,
        n.buckets == m.buckets,
        n.partitions == m.partitions,
        n.clock == m.clock,
    ensures
        n.inv(),
{
    assert forall|id: Uuid| n.referenced(id) == m.referenced(id) by {
        if m.referenced(id) {
            let o = choose|o: Object| #[trigger] m.objects.contains(o) && o.blob_id == Some(id);
            assert(n.objects.contains(o));
        }
        if n.referenced(id) {
            let o = choose|o: Object| #[trigger] n.objects.contains(o) && o.blob_id == Some(id);
            assert(m.objects.contains(o));
        }
    }
    assert forall|b: Blob| #[trigger] n.blobs.contains(b) implies n.referenced(b.id) || n.queued(b.id) by {
        assert(m.blobs.contains(b));
    }
    assert forall|o2: Object| #[trigger] n.objects.contains(o2) && o2.blob_id is Some implies n.has_blob(o2.blob_id->0) by {
        assert(m.objects.contains(o2));
    }
    assert forall|id2: Uuid| #[trigger] n.blobs_gc.contains(id2) implies n.has_blob(id2) && !n.referenced(id2) by {
        assert(m.blobs_gc.contains(id2));
    }
    assert forall|nm: Seq<char>| #[trigger] n.has_partition(nm) <==> n.has_bucket(nm) by {
        assert(m.has_partition(nm) <==> m.has_bucket(nm));
    }
    assert forall|o2: Object| #[trigger] n.objects.contains(o2) implies n.has_partition(o2.bucket_name@) && o2.last_modified <= n.clock by {
        assert(m.objects.contains(o2));
    }
}

pub proof fn lemma_commit_object_inv(m: StoreModel, object: Object, blob: Blob, now: Timestamp)
    requires
        m.inv(),
        m.commit_object_error(object, blob) is None,
    ensures
        m.commit_object_post(object, blob, now).inv(),
{
    lemma_replace_object_inv(m, object, blob, now);
    lemma_without_key(m.temp_blobs, temp_key(), blob.id);
    lemma_inv_frame(m.replace_object(object, blob, now), m.commit_object_post(object, blob, now));
}

pub proof fn lemma_complete_multipart_inv(m: StoreModel, object: Object, blob: Blob, upload: MultipartUpload, now: Timestamp)
    requires
        m.inv(),
        m.complete_multipart_error(object, blob, upload) is None,
    ensures
        m.complete_multipart_post(object, blob, upload, now).inv(),
{
    lemma_replace_object_inv(m, object, blob, now);
    lemma_without_key(m.uploads, upload_key(), upload_key()(upload));
    lemma_inv_frame(m.replace_object(object, blob, now), m.complete_multipart_post(object, blob, upload, now));
}

pub proof fn lemma_delete_object_inv(m: StoreModel, bucket: Seq<char>, oid: Seq<char>)
    requires
        m.inv(),
        m.delete_object_error(bucket, oid) is None,
    ensures
        m.delete_object_post(bucket, oid).inv(),
{
    let n = m.delete_object_post(bucket, oid);
    let k = (bucket, oid);
    lemma_row_with_key(m.objects, object_key(), k);
    let o = m.live_object(bucket, oid)->0;
    let id = o.blob_id->0;
    assert(m.objects.contains(o));
    lemma_without_key(m.objects, object_key(), k);
    assert(m.referenced(id));
    assert(!has_key_in(m.blobs_gc, id_key(), id)) by {
        if has_key_in(m.blobs_gc, id_key(), id) {
            let i = choose|i: int| 0 <= i < m.blobs_gc.len() && #[trigger] id_key()(m.blobs_gc[i]) == id;
            assert(m.blobs_gc.contains(m.blobs_gc[i]));
        }
    }
    lemma_push_key(m.blobs_gc, id_key(), id);
    assert forall|o2: Object| n.objects.contains(o2) implies o2.blob_id != Some(id) by {
        assert(m.objects.contains(o2));
        if o2.blob_id == Some(id) {
            assert(o2 == o);
        }
    }
    assert forall|b: Blob| #[trigger] n.blobs.contains(b) implies n.referenced(b.id) || n.queued(b.id) by {
        if !m.queued(b.id) && b.id != id {
            let o2 = choose|o2: Object| #[trigger] m.objects.contains(o2) && o2.blob_id == Some(b.id);
            if object_key()(o2) == k {
                assert(o2 == o) by {
                    lemma_has_key_contains(m.objects, object_key(), o2);
                    let i = index_of_key(m.objects, object_key(), k);
                    let j = choose|j: int| 0 <= j < m.objects.len() && m.objects[j] == o2;
                    assert(object_key()(m.objects[j]) == object_key()(m.objects[i]));
                }
            }
            assert(n.objects.contains(o2));
        }
    }
    assert forall|o2: Object| #[trigger] n.objects.contains(o2) && o2.blob_id is Some implies n.has_blob(o2.blob_id->0) by {
        assert(m.objects.contains(o2));
    }
    assert forall|o1: Object, o2: Object|
        n.objects.contains(o1) && n.objects.contains(o2) && o1.blob_id is Some && o1.blob_id == o2.blob_id implies o1 == o2 by {
        assert(m.objects.contains(o1) && m.objects.contains(o2));
    }
    assert forall|id2: Uuid| #[trigger] n.blobs_gc.contains(id2) implies n.has_blob(id2) && !n.referenced(id2) by {
        if id2 != id {
            assert(m.blobs_gc.contains(id2));
            assert(!m.referenced(id2));
            assert forall|o2: Object| n.objects.contains(o2) implies o2.blob_id != Some(id2) by {
                assert(m.objects.contains(o2));
            }
        }
    }
    assert forall|nm: Seq<char>| #[trigger] n.has_partition(nm) <==> n.has_bucket(nm) by {
        assert(m.has_partition(nm) <==> m.has_bucket(nm));
    }
    assert forall|o2: Object| #[trigger] n.objects.contains(o2) implies n.has_partition(o2.bucket_name@) && o2.last_modified <= n.clock by {
        assert(m.objects.contains(o2));
    }
}

pub proof fn lemma_delete_blob_gc_inv(m: StoreModel, id: Uuid)
    requires
        m.inv(),
        m.delete_blob_gc_error(id) is None,
    ensures
        m.delete_blob_gc_post(id).inv(),
{
    let n = m.delete_blob_gc_post(id);
    lemma_without_key(m.blobs, blob_key(), id);
    lemma_without_key(m.blobs_gc, id_key(), id);
    assert forall|b: Blob| #[trigger] n.blobs.contains(b) implies n.referenced(b.id) || n.queued(b.id) by {
        assert(m.blobs.contains(b));
        if m.queued(b.id) {
            assert(id_key()(b.id) != id);
            assert(n.blobs_gc.contains(b.id));
        } else {
            let o = choose|o: Object| #[trigger] m.objects.contains(o) && o.blob_id == Some(b.id);
            assert(n.objects.contains(o));
        }
    }
    assert forall|o2: Object| #[trigger] n.objects.contains(o2) && o2.blob_id is Some implies n.has_blob(o2.blob_id->0) by {
        assert(o2.blob_id->0 != id);
    }
    assert forall|id2: Uuid| #[trigger] n.blobs_gc.contains(id2) implies n.has_blob(id2) && !n.referenced(id2) by {
        assert(m.blobs_gc.contains(id2));
        assert(id_key()(id2) != id);
    }
    assert forall|nm: Seq<char>| #[trigger] n.has_partition(nm) <==> n.has_bucket(nm) by {
        assert(m.has_partition(nm) <==> m.has_bucket(nm));
    }
}

pub proof fn lemma_create_bucket_temp_inv(m: StoreModel, row: PendingBucket)
    requires
        m.inv(),
        m.create_bucket_temp_error(row.name@) is None,
    ensures
        m.create_bucket_temp_post(row).inv(),
{
    let n = m.create_bucket_temp_post(row);
    lemma_push_key(m.buckets_temp, pending_key(), row);
    lemma_inv_frame(m, n);
}

pub proof fn lemma_delete_bucket_temp_inv(m: StoreModel, name: Seq<char>)
    requires
        m.inv(),
    ensures
        m.delete_bucket_temp_post(name).inv(),
{
    let n = m.delete_bucket_temp_post(name);
    lemma_without_key(m.buckets_temp, pending_key(), name);
    lemma_inv_frame(m, n);
}

pub proof fn lemma_commit_bucket_inv(m: StoreModel, row: Bucket, table: String)
    requires
        m.inv(),
        m.commit_bucket_error(row.name@) is None,
        table@ == partition_name_of(row.name@),
    ensures
        m.commit_bucket_post(row, table).inv(),
{
    let n = m.commit_bucket_post(row, table);
    let part = Partition { bucket: row.name, table };
    lemma_push_key(m.buckets, bucket_key(), row);
    assert(partition_key()(part) == row.name@);
    assert(table_key()(part) == table@);
    lemma_push_key(m.partitions, partition_key(), part);
    lemma_push_key(m.partitions, table_key(), part);
    assert forall|p: Partition| #[trigger] n.partitions.contains(p) implies p.table@ == partition_name_of(p.bucket@) by {
        if p != part {
            assert(m.partitions.contains(p));
        }
    }
    lemma_without_key(m.buckets_temp, pending_key(), row.name@);
    assert forall|nm: Seq<char>| #[trigger] n.has_partition(nm) <==> n.has_bucket(nm) by {
        assert(m.has_partition(nm) <==> m.has_bucket(nm));
    }
    assert forall|id: Uuid| n.referenced(id) == m.referenced(id) by {
        if m.referenced(id) {
            let o = choose|o: Object| #[trigger] m.objects.contains(o) && o.blob_id == Some(id);
            assert(n.objects.contains(o));
        }
    }
    assert forall|b: Blob| #[trigger] n.blobs.contains(b) implies n.referenced(b.id) || n.queued(b.id) by {
        assert(m.blobs.contains(b));
    }
    assert forall|id2: Uuid| #[trigger] n.blobs_gc.contains(id2) implies n.has_blob(id2) && !n.referenced(id2) by {
        assert(m.blobs_gc.contains(id2));
    }
    assert forall|o2: Object| #[trigger] n.objects.contains(o2) implies n.has_partition(o2.bucket_name@) by {
        assert(m.has_partition(o2.bucket_name@));
    }
}

pub proof fn lemma_delete_bucket_inv(m: StoreModel, name: Seq<char>, job: BucketGcJob)
    requires
        m.inv(),
        m.delete_bucket_error(name, job.id) is None,
    ensures
        m.delete_bucket_post(name, job).inv(),
{
    let n = m.delete_bucket_post(name, job);
    lemma_without_key(m.buckets, bucket_key(), name);
    lemma_without_key(m.partitions, partition_key(), name);
    lemma_without_key_keeps(m.partitions, partition_key(), name, table_key());
    lemma_push_key(m.buckets_gc, job_key(), job);
    assert forall|p: Partition| #[trigger] n.partitions.contains(p) implies p.table@ == partition_name_of(p.bucket@) by {
        assert(m.partitions.contains(p));
    }
    assert forall|nm: Seq<char>| #[trigger] n.has_partition(nm) <==> n.has_bucket(nm) by {
        assert(m.has_partition(nm) <==> m.has_bucket(nm));
    }
    assert forall|o2: Object| #[trigger] n.objects.contains(o2) implies n.has_partition(o2.bucket_name@) by {
        assert(m.has_partition(o2.bucket_name@));
        assert(o2.bucket_name@ != name);
    }
}

pub proof fn lemma_delete_bucket_complete_inv(m: StoreModel, job_id: Uuid)
    requires
        m.inv(),
    ensures
        m.delete_bucket_complete_post(job_id).inv(),
{
    let n = m.delete_bucket_complete_post(job_id);
    lemma_without_key(m.buckets_gc, job_key(), job_id);
    lemma_inv_frame(m, n);
}

pub proof fn lemma_create_blob_temp_inv(m: StoreModel, row: TempBlob)
    requires
        m.inv(),
        m.create_blob_temp_error(row.id) is None,
    ensures
        m.create_blob_temp_post(row).inv(),
{
    let n = m.create_blob_temp_post(row);
    lemma_push_key(m.temp_blobs, temp_key(), row);
    lemma_inv_frame(m, n);
}

pub proof fn lemma_delete_blob_temp_inv(m: StoreModel, id: Uuid)
    requires
        m.inv(),
    ensures
        m.delete_blob_temp_post(id).inv(),
{
    let n = m.delete_blob_temp_post(id);
    lemma_without_key(m.temp_blobs, temp_key(), id);
    lemma_inv_frame(m, n);
}

pub proof fn lemma_create_multipart_inv(m: StoreModel, row: MultipartUpload)
    requires
        m.inv(),
        m.create_multipart_error(row) is None,
    ensures
        m.create_multipart_post(row).inv(),
{
    let n = m.create_multipart_post(row);
    lemma_push_key(m.uploads, upload_key(), row);
    lemma_inv_frame(m, n);
}

pub proof fn lemma_abort_multipart_inv(m: StoreModel, upload: MultipartUpload)
    requires
        m.inv(),
    ensures
        m.abort_multipart_post(upload).inv(),
{
    let n = m.abort_multipart_post(upload);
    lemma_without_key(m.uploads, upload_key(), upload_key()(upload));
    lemma_inv_frame(m, n);
}

pub proof fn lemma_add_user_inv(m: StoreModel, user: User)
    requires
        m.inv(),
        m.add_user_error(user) is None,
    ensures
        (StoreModel { users: m.users.push(user), ..m }).inv(),
{
    let n = StoreModel { users: m.users.push(user), ..m };
    lemma_push_key(m.users, user_key(), user);
    lemma_inv_frame(m, n);
}

pub proof fn lemma_add_key_inv(m: StoreModel, key: Key)
    requires
        m.inv(),
        m.add_key_error(key) is None,
    ensures
        (StoreModel { keys: m.keys.push(key), ..m }).inv(),
{
    let n = StoreModel { keys: m.keys.push(key), ..m };
    lemma_push_key(m.keys, access_key(), key);
    lemma_inv_frame(m, n);
}

pub proof fn lemma_empty_inv()
    ensures
        empty_model().inv(),
{
}

} // verus!
