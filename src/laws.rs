//! Properties of the metadata store that hold across transactions.
use vstd::prelude::*;
use crate::meta_store::{Blob, Bucket, BucketGcJob, Object, Partition, PendingBucket, Timestamp};
use crate::model::{
    blob_key, bucket_key, job_key, object_key, partition_key, pending_key, table_key, StoreModel,
};
use crate::naming::partition_name_of;
use crate::table::{
    has_key_in, lemma_has_key_iff_contains, lemma_push_key, lemma_row_with_key, lemma_without_key,
    row_with_key, without_key,
};

verus! {

/// No two live objects share a bucket and a key.
pub proof fn law_one_live_object(m: StoreModel, i: int, j: int)
    requires
        m.inv(),
        0 <= i < m.objects.len(),
        0 <= j < m.objects.len(),
        m.objects[i].bucket_name@ == m.objects[j].bucket_name@,
        m.objects[i].oid@ == m.objects[j].oid@,
    ensures
        i == j,
{
    assert(object_key()(m.objects[i]) == object_key()(m.objects[j]));
}

/// Every blob is referenced by an object or queued for collection, and a
/// queued blob is referenced by no object.
pub proof fn law_blob_accounted(m: StoreModel, b: Blob)
    requires
        m.inv(),
        m.blobs.contains(b),
    ensures
        m.referenced(b.id) || m.queued(b.id),
        m.queued(b.id) ==> !m.referenced(b.id),
{
}

/// A bucket can be deleted only while no object lives in it.
pub proof fn law_delete_bucket_needs_empty(m: StoreModel, name: Seq<char>, job: BucketGcJob)
    requires
        m.inv(),
        m.delete_bucket_error(name, job.id) is None,
    ensures
        m.bucket_is_empty(name),
        forall|o: Object| #[trigger] m.objects.contains(o) ==> o.bucket_name@ != name,
{
}

/// A bucket has a partition of the objects table exactly while it is live,
/// and the partition's table is named after the bucket.
pub proof fn law_partition_iff_bucket(m: StoreModel, name: Seq<char>)
    requires
        m.inv(),
    ensures
        m.has_partition(name) <==> m.has_bucket(name),
        m.has_partition(name) ==> row_with_key(m.partitions, partition_key(), name)->0.table@
            == partition_name_of(name),
{
    if m.has_partition(name) {
        lemma_row_with_key(m.partitions, partition_key(), name);
    }
}

/// The object that a commit writes is the live object of its key afterwards.
proof fn lemma_committed_is_live(m: StoreModel, object: Object, blob: Blob, now: Timestamp)
    requires
        m.inv(),
        m.commit_object_error(object, blob) is None,
    ensures
        m.replace_object(object, blob, now).live_object(object.bucket_name@, object.oid@)
            == Some(m.committed_row(object, blob, now)),
        m.replace_object(object, blob, now).blob_of(Some(blob.id)) == Some(blob),
{
    let k = (object.bucket_name@, object.oid@);
    let row = m.committed_row(object, blob, now);
    lemma_without_key(m.objects, object_key(), k);
    assert(object_key()(row) == k);
    lemma_push_key(without_key(m.objects, object_key(), k), object_key(), row);
    lemma_push_key(m.blobs, blob_key(), blob);
}

/// Repeated writes of a key never move its modification time backwards.
pub proof fn law_last_modified_monotone(m: StoreModel, object: Object, blob: Blob, now: Timestamp)
    requires
        m.inv(),
        m.commit_object_error(object, blob) is None,
        m.has_object(object.bucket_name@, object.oid@),
    ensures
        m.commit_object_post(object, blob, now).live_object(object.bucket_name@, object.oid@)->0.last_modified
            >= m.live_object(object.bucket_name@, object.oid@)->0.last_modified,
{
    lemma_committed_is_live(m, object, blob, now);
    lemma_row_with_key(m.objects, object_key(), (object.bucket_name@, object.oid@));
}

/// After a write of a key, a read of the key finds the written object and
/// blob, with the blob's size and entity tag.
pub proof fn law_put_then_get(m: StoreModel, object: Object, blob: Blob, now: Timestamp)
    requires
        m.inv(),
        m.commit_object_error(object, blob) is None,
    ensures
        m.commit_object_post(object, blob, now).object_with_blob(object.bucket_name@, object.oid@)
            == Some((m.committed_row(object, blob, now), Some(blob))),
{
    lemma_committed_is_live(m, object, blob, now);
}

/// After two writes of a key, a read finds the second blob, and the first
/// blob waits for the collector, which may delete it.
pub proof fn law_overwrite(
    m: StoreModel,
    first: Object,
    first_row: Blob,
    t1: Timestamp,
    second: Object,
    second_row: Blob,
    t2: Timestamp,
)
    requires
        m.inv(),
        m.commit_object_error(first, first_row) is None,
        m.commit_object_post(first, first_row, t1).commit_object_error(second, second_row) is None,
        first.bucket_name@ == second.bucket_name@,
        first.oid@ == second.oid@,
    ensures
        ({
            let m2 = m.commit_object_post(first, first_row, t1).commit_object_post(second, second_row, t2);
            &&& m2.object_with_blob(second.bucket_name@, second.oid@) == Some(
                (m.commit_object_post(first, first_row, t1).committed_row(second, second_row, t2), Some(second_row)),
            )
            &&& m2.queued(first_row.id)
            &&& m2.delete_blob_gc_error(first_row.id) is None
        }),
{
    let m1 = m.commit_object_post(first, first_row, t1);
    crate::invariants::lemma_commit_object_inv(m, first, first_row, t1);
    lemma_committed_is_live(m, first, first_row, t1);
    lemma_committed_is_live(m1, second, second_row, t2);
    crate::invariants::lemma_commit_object_inv(m1, second, second_row, t2);
    let m2 = m1.commit_object_post(second, second_row, t2);
    assert(m1.live_object(second.bucket_name@, second.oid@) == Some(m.committed_row(first, first_row, t1)));
    assert(m2.blobs_gc == m1.blobs_gc.push(first_row.id));
    assert(m2.blobs_gc[m1.blobs_gc.len() as int] == first_row.id);
    assert(m2.queued(first_row.id));
}

/// After a delete of a key, a read of the key finds nothing.
pub proof fn law_delete_then_get(m: StoreModel, bucket: Seq<char>, oid: Seq<char>)
    requires
        m.inv(),
        m.delete_object_error(bucket, oid) is None,
    ensures
        m.delete_object_post(bucket, oid).object_with_blob(bucket, oid) is None,
{
    lemma_without_key(m.objects, object_key(), (bucket, oid));
}

/// A bucket name can be created again after its bucket was deleted:
/// creation (reservation and promotion), deletion, and a second creation
/// all succeed, given a fresh job id for the collector.
pub proof fn law_bucket_name_reusable(
    m: StoreModel,
    first_pending: PendingBucket,
    first_row: Bucket,
    job: BucketGcJob,
    second_pending: PendingBucket,
    second_row: Bucket,
    first_table: String,
    second_table: String,
)
    requires
        m.inv(),
        m.create_bucket_temp_error(first_pending.name@) is None,
        m.commit_bucket_error(first_pending.name@) is None,
        first_row.name@ == first_pending.name@,
        second_pending.name@ == first_pending.name@,
        second_row.name@ == first_pending.name@,
        !has_key_in(m.buckets_gc, job_key(), job.id),
        first_table@ == partition_name_of(first_pending.name@),
        second_table@ == partition_name_of(first_pending.name@),
    ensures
        ({
            let name = first_pending.name@;
            let m1 = m.create_bucket_temp_post(first_pending);
            let m2 = m1.commit_bucket_post(first_row, first_table);
            let m3 = m2.delete_bucket_post(name, job);
            let m4 = m3.create_bucket_temp_post(second_pending);
            &&& m1.commit_bucket_error(name) is None
            &&& m2.delete_bucket_error(name, job.id) is None
            &&& m3.create_bucket_temp_error(name) is None
            &&& m4.commit_bucket_error(name) is None
        }),
{
    let name = first_pending.name@;
    let m1 = m.create_bucket_temp_post(first_pending);
    crate::invariants::lemma_create_bucket_temp_inv(m, first_pending);
    assert(m1.commit_bucket_error(name) is None);
    let m2 = m1.commit_bucket_post(first_row, first_table);
    crate::invariants::lemma_commit_bucket_inv(m1, first_row, first_table);
    let part = Partition { bucket: first_row.name, table: first_table };
    assert(partition_key()(part) == name);
    lemma_push_key(m1.partitions, partition_key(), part);
    assert(m2.has_partition(name));
    assert(m2.bucket_is_empty(name)) by {
        assert forall|o: Object| #[trigger] m2.objects.contains(o) implies o.bucket_name@ != name by {
            assert(m.objects.contains(o));
            assert(m.has_partition(o.bucket_name@));
        }
    }
    assert(m2.delete_bucket_error(name, job.id) is None);
    let m3 = m2.delete_bucket_post(name, job);
    crate::invariants::lemma_delete_bucket_inv(m2, name, job);
    lemma_without_key(m1.buckets_temp, pending_key(), name);
    lemma_without_key(m2.buckets, bucket_key(), name);
    lemma_without_key(m2.partitions, partition_key(), name);
    // the derived table name was free before and its only holder is gone
    let t = partition_name_of(name);
    lemma_has_key_iff_contains(m.partitions, table_key(), t);
    lemma_has_key_iff_contains(m3.partitions, table_key(), t);
    assert(!m3.table_taken(t)) by {
        assert forall|x: Partition| #[trigger] m3.partitions.contains(x) implies table_key()(x) != t by {
            assert(m2.partitions.contains(x));
            assert(partition_key()(x) != name);
            if x != part {
                assert(m.partitions.contains(x));
            }
        }
    }
    assert(m3.create_bucket_temp_error(name) is None);
    let m4 = m3.create_bucket_temp_post(second_pending);
    assert(m4.commit_bucket_error(name) is None);
}

} // verus!
