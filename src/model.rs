//! The mathematical model of the metadata store: its tables as sequences of
//! rows, the invariants that every transaction keeps, and what each
//! transaction does to the tables.
use vstd::prelude::*;
use crate::error::ErrorCode;
use crate::meta_store::{
    Blob, Bucket, BucketGcJob, Key, MultipartUpload, Object, Partition, PendingBucket,
    TempBlob, Timestamp, User, Uuid,
};
use crate::naming::partition_name_of;
use crate::table::{has_key_in, row_with_key, unique_by, without_key};

verus! {

/// The tables of the metadata store.
pub struct StoreModel {
    pub users: Seq<User>,
    pub keys: Seq<Key>,
    pub buckets: Seq<Bucket>,
    pub buckets_temp: Seq<PendingBucket>,
    pub buckets_gc: Seq<BucketGcJob>,
    /// The partitions of the objects table, one per live bucket.
    pub partitions: Seq<Partition>,
    pub objects: Seq<Object>,
    pub blobs: Seq<Blob>,
    pub temp_blobs: Seq<TempBlob>,
    pub blobs_gc: Seq<Uuid>,
    pub uploads: Seq<MultipartUpload>,
    /// The latest timestamp that a transaction handed out.
    pub clock: Timestamp,
}

pub open spec fn user_key() -> spec_fn(User) -> Seq<char> {
    |u: User| u.id@
}

pub open spec fn access_key() -> spec_fn(Key) -> Seq<char> {
    |k: Key| k.access_key@
}

pub open spec fn bucket_key() -> spec_fn(Bucket) -> Seq<char> {
    |b: Bucket| b.name@
}

pub open spec fn pending_key() -> spec_fn(PendingBucket) -> Seq<char> {
    |b: PendingBucket| b.name@
}

pub open spec fn job_key() -> spec_fn(BucketGcJob) -> Uuid {
    |j: BucketGcJob| j.id
}

pub open spec fn partition_key() -> spec_fn(Partition) -> Seq<char> {
    |p: Partition| p.bucket@
}

pub open spec fn table_key() -> spec_fn(Partition) -> Seq<char> {
    |p: Partition| p.table@
}

pub open spec fn object_key() -> spec_fn(Object) -> (Seq<char>, Seq<char>) {
    |o: Object| (o.bucket_name@, o.oid@)
}

pub open spec fn blob_key() -> spec_fn(Blob) -> Uuid {
    |b: Blob| b.id
}

pub open spec fn temp_key() -> spec_fn(TempBlob) -> Uuid {
    |t: TempBlob| t.id
}

pub open spec fn id_key() -> spec_fn(Uuid) -> Uuid {
    |u: Uuid| u
}

pub open spec fn upload_key() -> spec_fn(MultipartUpload) -> (Seq<char>, Seq<char>, Seq<char>) {
    |u: MultipartUpload| (u.bucket@, u.oid@, u.upload_id@)
}

/// The timestamp of a transaction that starts at `now` after one that handed out `clock`.
pub open spec fn next_time(clock: Timestamp, now: Timestamp) -> Timestamp {
    if now > clock {
        now
    } else {
        clock
    }
}

impl StoreModel {
    pub open spec fn has_bucket(self, name: Seq<char>) -> bool {
        has_key_in(self.buckets, bucket_key(), name)
    }

    /// Bucket `name` has a partition.
    pub open spec fn has_partition(self, name: Seq<char>) -> bool {
        has_key_in(self.partitions, partition_key(), name)
    }

    /// Some partition's table is named `table`.
    pub open spec fn table_taken(self, table: Seq<char>) -> bool {
        has_key_in(self.partitions, table_key(), table)
    }

    pub open spec fn has_object(self, bucket: Seq<char>, oid: Seq<char>) -> bool {
        has_key_in(self.objects, object_key(), (bucket, oid))
    }

    pub open spec fn has_blob(self, id: Uuid) -> bool {
        has_key_in(self.blobs, blob_key(), id)
    }

    /// Some object refers to blob `id`.
    pub open spec fn referenced(self, id: Uuid) -> bool {
        exists|o: Object| #[trigger] self.objects.contains(o) && o.blob_id == Some(id)
    }

    /// Blob `id` waits in the queue of the garbage collector.
    pub open spec fn queued(self, id: Uuid) -> bool {
        self.blobs_gc.contains(id)
    }

    /// No object lives in bucket `name`.
    pub open spec fn bucket_is_empty(self, name: Seq<char>) -> bool {
        forall|o: Object| #[trigger] self.objects.contains(o) ==> o.bucket_name@ != name
    }

    /// Each table holds at most one row per primary key; in particular at most
    /// one live object per (bucket, key).
    pub open spec fn keys_unique(self) -> bool {
        &&& unique_by(self.users, user_key())
        &&& unique_by(self.keys, access_key())
        &&& unique_by(self.buckets, bucket_key())
        &&& unique_by(self.buckets_temp, pending_key())
        &&& unique_by(self.buckets_gc, job_key())
        &&& unique_by(self.partitions, partition_key())
        &&& unique_by(self.partitions, table_key())
        &&& unique_by(self.objects, object_key())
        &&& unique_by(self.blobs, blob_key())
        &&& unique_by(self.temp_blobs, temp_key())
        &&& unique_by(self.blobs_gc, id_key())
        &&& unique_by(self.uploads, upload_key())
    }

    /// Every blob is referenced by an object or queued for collection, never
    /// both; an object's blob exists and belongs to that object alone.
    pub open spec fn blobs_accounted(self) -> bool {
        &&& forall|b: Blob| #[trigger]
            self.blobs.contains(b) ==> self.referenced(b.id) || self.queued(b.id)
        &&& forall|o: Object| #[trigger]
            self.objects.contains(o) && o.blob_id is Some ==> self.has_blob(o.blob_id->0)
        &&& forall|o1: Object, o2: Object|
            #![trigger self.objects.contains(o1), self.objects.contains(o2)]
            self.objects.contains(o1) && self.objects.contains(o2) && o1.blob_id is Some
                && o1.blob_id == o2.blob_id ==> o1 == o2
        &&& forall|id: Uuid| #[trigger]
            self.blobs_gc.contains(id) ==> self.has_blob(id) && !self.referenced(id)
    }

    /// A bucket has a partition exactly when it is live, each partition's
    /// table is named after its bucket, and every object stands in a partition.
    pub open spec fn buckets_partitioned(self) -> bool {
        &&& forall|n: Seq<char>| #[trigger] self.has_partition(n) <==> self.has_bucket(n)
        &&& forall|p: Partition| #[trigger]
            self.partitions.contains(p) ==> p.table@ == partition_name_of(p.bucket@)
        &&& forall|o: Object| #[trigger]
            self.objects.contains(o) ==> self.has_partition(o.bucket_name@)
    }

    /// No object is newer than the clock.
    pub open spec fn clock_ahead(self) -> bool {
        forall|o: Object| #[trigger] self.objects.contains(o) ==> o.last_modified <= self.clock
    }

    /// What holds of the tables between any two transactions.
    pub open spec fn inv(self) -> bool {
        &&& self.keys_unique()
        &&& self.blobs_accounted()
        &&& self.buckets_partitioned()
        &&& self.clock_ahead()
    }

    // ---- reads ----

    /// The user that an access key belongs to.
    pub open spec fn user_of_key(self, key: Seq<char>) -> Option<User> {
        match row_with_key(self.keys, access_key(), key) {
            Some(k) => row_with_key(self.users, user_key(), k.account@),
            None => None,
        }
    }

    pub open spec fn bucket_named(self, name: Seq<char>) -> Option<Bucket> {
        row_with_key(self.buckets, bucket_key(), name)
    }

    pub open spec fn live_object(self, bucket: Seq<char>, oid: Seq<char>) -> Option<Object> {
        row_with_key(self.objects, object_key(), (bucket, oid))
    }

    pub open spec fn blob_of(self, id: Option<Uuid>) -> Option<Blob> {
        match id {
            Some(i) => row_with_key(self.blobs, blob_key(), i),
            None => None,
        }
    }

    /// The live object at (bucket, oid) with its blob.
    pub open spec fn object_with_blob(self, bucket: Seq<char>, oid: Seq<char>) -> Option<(Object, Option<Blob>)> {
        match self.live_object(bucket, oid) {
            Some(o) => Some((o, self.blob_of(o.blob_id))),
            None => None,
        }
    }

    /// The blob of the live object at (bucket, oid), if there is one.
    pub open spec fn previous_blob(self, bucket: Seq<char>, oid: Seq<char>) -> Option<Blob> {
        match self.live_object(bucket, oid) {
            Some(o) => self.blob_of(o.blob_id),
            None => None,
        }
    }

    pub open spec fn upload_named(self, bucket: Seq<char>, oid: Seq<char>, upload_id: Seq<char>) -> Option<MultipartUpload> {
        row_with_key(self.uploads, upload_key(), (bucket, oid, upload_id))
    }

    // ---- bucket lifecycle ----

    pub open spec fn create_bucket_temp_error(self, name: Seq<char>) -> Option<ErrorCode> {
        if has_key_in(self.buckets_temp, pending_key(), name) {
            Some(ErrorCode::BucketAlreadyExists)
        } else {
            None
        }
    }

    pub open spec fn create_bucket_temp_post(self, row: PendingBucket) -> StoreModel {
        StoreModel { buckets_temp: self.buckets_temp.push(row), ..self }
    }

    pub open spec fn delete_bucket_temp_post(self, name: Seq<char>) -> StoreModel {
        StoreModel { buckets_temp: without_key(self.buckets_temp, pending_key(), name), ..self }
    }

    pub open spec fn commit_bucket_error(self, name: Seq<char>) -> Option<ErrorCode> {
        if self.has_bucket(name) || self.has_partition(name) {
            Some(ErrorCode::BucketAlreadyExists)
        } else if self.table_taken(partition_name_of(name)) {
            Some(ErrorCode::InternalError)
        } else {
            None
        }
    }

    /// Promotion of a pending bucket: the bucket row, the end of the
    /// reservation and the partition in table `table`, together.
    pub open spec fn commit_bucket_post(self, row: Bucket, table: String) -> StoreModel {
        StoreModel {
            buckets: self.buckets.push(row),
            buckets_temp: without_key(self.buckets_temp, pending_key(), row.name@),
            partitions: self.partitions.push(Partition { bucket: row.name, table }),
            ..self
        }
    }

    pub open spec fn delete_bucket_error(self, name: Seq<char>, job_id: Uuid) -> Option<ErrorCode> {
        if !self.has_partition(name) {
            Some(ErrorCode::NoSuchBucket)
        } else if !self.bucket_is_empty(name) {
            Some(ErrorCode::BucketNotEmpty)
        } else if has_key_in(self.buckets_gc, job_key(), job_id) {
            Some(ErrorCode::InternalError)
        } else {
            None
        }
    }

    /// Removal of an empty bucket: the row and the partition go, and a job
    /// for the garbage collector comes.
    pub open spec fn delete_bucket_post(self, name: Seq<char>, job: BucketGcJob) -> StoreModel {
        StoreModel {
            buckets: without_key(self.buckets, bucket_key(), name),
            buckets_gc: self.buckets_gc.push(job),
            partitions: without_key(self.partitions, partition_key(), name),
            ..self
        }
    }

    pub open spec fn delete_bucket_complete_post(self, job_id: Uuid) -> StoreModel {
        StoreModel { buckets_gc: without_key(self.buckets_gc, job_key(), job_id), ..self }
    }

    // ---- blobs and objects ----

    pub open spec fn create_blob_temp_error(self, id: Uuid) -> Option<ErrorCode> {
        if has_key_in(self.temp_blobs, temp_key(), id) {
            Some(ErrorCode::InternalError)
        } else {
            None
        }
    }

    pub open spec fn create_blob_temp_post(self, row: TempBlob) -> StoreModel {
        StoreModel { temp_blobs: self.temp_blobs.push(row), ..self }
    }

    pub open spec fn delete_blob_temp_post(self, id: Uuid) -> StoreModel {
        StoreModel { temp_blobs: without_key(self.temp_blobs, temp_key(), id), ..self }
    }

    pub open spec fn commit_object_error(self, object: Object, blob: Blob) -> Option<ErrorCode> {
        if !self.has_partition(object.bucket_name@) {
            Some(ErrorCode::NoSuchBucket)
        } else if self.has_blob(blob.id) {
            Some(ErrorCode::InternalError)
        } else {
            None
        }
    }

    /// The row that a commit writes.
    pub open spec fn committed_row(self, object: Object, blob: Blob, now: Timestamp) -> Object {
        Object {
            bucket_name: object.bucket_name,
            oid: object.oid,
            last_modified: next_time(self.clock, now),
            blob_id: Some(blob.id),
        }
    }

    /// A new blob and the object that refers to it replace the live object of
    /// the same key, whose blob joins the collector's queue.
    pub open spec fn replace_object(self, object: Object, blob: Blob, now: Timestamp) -> StoreModel {
        let k = (object.bucket_name@, object.oid@);
        StoreModel {
            objects: without_key(self.objects, object_key(), k).push(
                self.committed_row(object, blob, now),
            ),
            blobs: self.blobs.push(blob),
            blobs_gc: match self.live_object(k.0, k.1) {
                Some(o) => match o.blob_id {
                    Some(id) => self.blobs_gc.push(id),
                    None => self.blobs_gc,
                },
                None => self.blobs_gc,
            },
            clock: next_time(self.clock, now),
            ..self
        }
    }

    pub open spec fn commit_object_post(self, object: Object, blob: Blob, now: Timestamp) -> StoreModel {
        let m = self.replace_object(object, blob, now);
        StoreModel { temp_blobs: without_key(self.temp_blobs, temp_key(), blob.id), ..m }
    }

    pub open spec fn delete_object_error(self, bucket: Seq<char>, oid: Seq<char>) -> Option<ErrorCode> {
        match self.live_object(bucket, oid) {
            Some(o) => if o.blob_id is Some {
                None
            } else {
                Some(ErrorCode::NoSuchKey)
            },
            None => Some(ErrorCode::NoSuchKey),
        }
    }

    pub open spec fn delete_object_post(self, bucket: Seq<char>, oid: Seq<char>) -> StoreModel {
        StoreModel {
            objects: without_key(self.objects, object_key(), (bucket, oid)),
            blobs_gc: self.blobs_gc.push(self.live_object(bucket, oid)->0.blob_id->0),
            ..self
        }
    }

    pub open spec fn delete_blob_gc_error(self, id: Uuid) -> Option<ErrorCode> {
        if self.referenced(id) {
            Some(ErrorCode::InternalError)
        } else {
            None
        }
    }

    pub open spec fn delete_blob_gc_post(self, id: Uuid) -> StoreModel {
        StoreModel {
            blobs: without_key(self.blobs, blob_key(), id),
            blobs_gc: without_key(self.blobs_gc, id_key(), id),
            ..self
        }
    }

    // ---- multipart uploads ----

    pub open spec fn create_multipart_error(self, row: MultipartUpload) -> Option<ErrorCode> {
        if has_key_in(self.uploads, upload_key(), upload_key()(row)) {
            Some(ErrorCode::InternalError)
        } else {
            None
        }
    }

    pub open spec fn create_multipart_post(self, row: MultipartUpload) -> StoreModel {
        StoreModel { uploads: self.uploads.push(row), ..self }
    }

    pub open spec fn complete_multipart_error(self, object: Object, blob: Blob, upload: MultipartUpload) -> Option<ErrorCode> {
        if !has_key_in(self.uploads, upload_key(), upload_key()(upload)) {
            Some(ErrorCode::NoSuchUpload)
        } else {
            self.commit_object_error(object, blob)
        }
    }

    pub open spec fn complete_multipart_post(self, object: Object, blob: Blob, upload: MultipartUpload, now: Timestamp) -> StoreModel {
        let m = self.replace_object(object, blob, now);
        StoreModel { uploads: without_key(self.uploads, upload_key(), upload_key()(upload)), ..m }
    }

    pub open spec fn abort_multipart_error(self, upload: MultipartUpload) -> Option<ErrorCode> {
        if !has_key_in(self.uploads, upload_key(), upload_key()(upload)) {
            Some(ErrorCode::NoSuchUpload)
        } else {
            None
        }
    }

    pub open spec fn abort_multipart_post(self, upload: MultipartUpload) -> StoreModel {
        StoreModel { uploads: without_key(self.uploads, upload_key(), upload_key()(upload)), ..self }
    }

    // ---- accounts ----

    pub open spec fn add_user_error(self, user: User) -> Option<ErrorCode> {
        if has_key_in(self.users, user_key(), user.id@) {
            Some(ErrorCode::InvalidArgument)
        } else {
            None
        }
    }

    pub open spec fn add_key_error(self, key: Key) -> Option<ErrorCode> {
        if has_key_in(self.keys, access_key(), key.access_key@) {
            Some(ErrorCode::InvalidArgument)
        } else {
            None
        }
    }
}

pub open spec fn empty_model() -> StoreModel {
    StoreModel {
        users: Seq::empty(),
        keys: Seq::empty(),
        buckets: Seq::empty(),
        buckets_temp: Seq::empty(),
        buckets_gc: Seq::empty(),
        partitions: Seq::empty(),
        objects: Seq::empty(),
        blobs: Seq::empty(),
        temp_blobs: Seq::empty(),
        blobs_gc: Seq::empty(),
        uploads: Seq::empty(),
        clock: i64::MIN,
    }
}

} // verus!
