//! The request pipeline of the gateway: the checks and metadata phases of
//! each S3 operation. The backing-store calls in between are made by the
//! caller, which hands their outcome back.
use vstd::prelude::*;
use crate::error::ErrorCode;
use crate::ids::{blob_key_text, uuid_text};
use crate::meta_store::{Blob, BlobLocation, Bucket, MultipartUpload, Object, TempBlob, Timestamp, User, Uuid};
use crate::model::{empty_model, next_time, StoreModel};
use crate::naming::{backend_name_of, choose_region, location_for};
use crate::store::MetaStore;

verus! {

/// The number of times a transaction runs before a transient failure surfaces.
pub const MAX_ATTEMPTS: u32 = 10;

/// Why a transaction failed.
#[derive(Debug, Clone, Copy, PartialEq, Eq, Structural)]
pub enum TxError {
    /// A failure of the request itself, such as a missing bucket.
    Domain(ErrorCode),
    /// A failure of the database transport or a serialisation conflict.
    Transient,
}

#[derive(Debug, Clone, Copy, PartialEq, Eq, Structural)]
pub enum RetryStep {
    Retry,
    Fail(ErrorCode),
}

/// What to do after attempt `attempt` (counted from 1) of a transaction
/// failed: domain errors surface at once, transient ones are retried until
/// the last attempt, after which an internal error surfaces.
pub fn retry_step(attempt: u32, err: TxError) -> (r: RetryStep)
    requires
        1 <= attempt <= MAX_ATTEMPTS,
    ensures
        r == match err {
            TxError::Domain(c) => RetryStep::Fail(c),
            TxError::Transient => if attempt < MAX_ATTEMPTS {
                RetryStep::Retry
            } else {
                RetryStep::Fail(ErrorCode::InternalError)
            },
        },
{
    match err {
        TxError::Domain(c) => RetryStep::Fail(c),
        TxError::Transient => if attempt < MAX_ATTEMPTS {
            RetryStep::Retry
        } else {
            RetryStep::Fail(ErrorCode::InternalError)
        },
    }
}

/// The storage classes the gateway accepts: none named, or `STANDARD`.
pub open spec fn storage_class_ok(class: Option<String>) -> bool {
    match class {
        Some(c) => c@ == "STANDARD"@,
        None => true,
    }
}

pub fn check_storage_class(class: &Option<String>) -> (r: Result<(), ErrorCode>)
    ensures
        r is Ok <==> storage_class_ok(*class),
        r is Err ==> r == Err::<(), ErrorCode>(ErrorCode::InvalidStorageClass),
{
    match class {
        Some(c) => {
            let standard = String::from_str("STANDARD");
            if *c == standard {
                Ok(())
            } else {
                Err(ErrorCode::InvalidStorageClass)
            }
        },
        None => Ok(()),
    }
}

/// A single-part upload between its two phases: the blob is recorded as
/// temporary, and its payload is to be sent to `location` under `key`.
#[derive(Debug)]
pub struct PendingPut {
    pub bucket_name: String,
    pub oid: String,
    pub blob: Uuid,
    pub key: String,
    pub location: BlobLocation,
    pub size: i64,
}

/// Where a read goes in the backing store, and the headers that the
/// gateway shows in place of the backing store's.
#[derive(Debug)]
pub struct ReadPlan {
    pub key: String,
    pub location: BlobLocation,
    pub etag: String,
    pub last_modified: Timestamp,
    pub size: i64,
}

/// The gateway's state: the metadata store and the placement settings.
pub struct Gateway {
    pub store: MetaStore,
    /// The one backing bucket of single-tenant mode.
    pub static_bucket: Option<String>,
    pub default_region: String,
}

/// The first phase of a single-part upload, as the store sees it.
pub open spec fn put_begin_error(
    m: StoreModel,
    authorized: bool,
    bucket: Seq<char>,
    class: Option<String>,
    has_body: bool,
    content_length: Option<i64>,
    blob: Uuid,
) -> Option<ErrorCode> {
    if !storage_class_ok(class) {
        Some(ErrorCode::InvalidStorageClass)
    } else if m.bucket_named(bucket) is None {
        Some(ErrorCode::NoSuchBucket)
    } else if !authorized {
        Some(ErrorCode::AccessDenied)
    } else if !has_body || content_length is None {
        Some(ErrorCode::IncompleteBody)
    } else {
        m.create_blob_temp_error(blob)
    }
}

impl Gateway {
    pub fn new(static_bucket: Option<String>, default_region: String) -> (r: Self)
        ensures
            r.store@ == empty_model(),
            r.store@.inv(),
            r.static_bucket == static_bucket,
            r.default_region == default_region,
    {
        Gateway { store: MetaStore::new(), static_bucket, default_region }
    }

    /// Phase one of a single-part upload: checks the request, then records
    /// blob `blob` as temporary in the bucket's location. The caller then
    /// uploads the payload under the returned key.
    pub fn put_object_begin(
        &mut self,
        authorized: bool,
        bucket: &str,
        key: &str,
        class: &Option<String>,
        has_body: bool,
        content_length: Option<i64>,
        blob: Uuid,
        now: Timestamp,
    ) -> (r: Result<PendingPut, ErrorCode>)
        requires
            old(self).store@.inv(),
        ensures
            final(self).store@.inv(),
            final(self).static_bucket == old(self).static_bucket,
            final(self).default_region == old(self).default_region,
            match put_begin_error(old(self).store@, authorized, bucket@, *class, has_body, content_length, blob) {
                Some(e) => r == Err::<PendingPut, ErrorCode>(e) && final(self).store@ == old(self).store@,
                None => {
                    let b = old(self).store@.bucket_named(bucket@)->0;
                    (r matches Ok(p) && p.bucket_name == b.name && p.oid@ == key@ && p.blob == blob
                        && p.key@ == uuid_text(blob) && p.location == b.location
                        && p.size == content_length->0)
                        && final(self).store@ == old(self).store@.create_blob_temp_post(
                        TempBlob { id: blob, uploaded_at: now, location: b.location },
                    )
                },
            },
    {
        check_storage_class(class)?;
        let b = match self.store.get_bucket(bucket) {
            Some(b) => b,
            None => return Err(ErrorCode::NoSuchBucket),
        };
        if !authorized {
            return Err(ErrorCode::AccessDenied);
        }
        if !has_body {
            return Err(ErrorCode::IncompleteBody);
        }
        let size = match content_length {
            Some(n) => n,
            None => return Err(ErrorCode::IncompleteBody),
        };
        self.store.create_blob_temp(blob, &b.location, now)?;
        Ok(PendingPut {
            bucket_name: b.name,
            oid: key.to_owned(),
            blob,
            key: blob_key_text(blob),
            location: b.location,
            size,
        })
    }

    /// Phase two of a single-part upload, given the outcome of the upload:
    /// its entity tag and the size that the backing store confirms. On
    /// failure, or where the confirmed size is not the announced one, the
    /// temporary record goes and the failure (`InternalError` for a size
    /// mismatch) surfaces; on success the object is committed. Returns the object's timestamp and
    /// the blob it replaced, which the caller may delete from the backing
    /// store at once.
    pub fn put_object_finish(&mut self, pending: &PendingPut, upload: Result<(String, i64), ErrorCode>, now: Timestamp) -> (r: Result<(Timestamp, Option<Blob>), ErrorCode>)
        requires
            old(self).store@.inv(),
        ensures
            final(self).store@.inv(),
            final(self).static_bucket == old(self).static_bucket,
            final(self).default_region == old(self).default_region,
            match upload {
                Err(e) => r == Err::<(Timestamp, Option<Blob>), ErrorCode>(e) && final(self).store@
                    == old(self).store@.delete_blob_temp_post(pending.blob),
                Ok((etag, stored)) => if stored != pending.size {
                    r == Err::<(Timestamp, Option<Blob>), ErrorCode>(ErrorCode::InternalError) && final(self).store@
                        == old(self).store@.delete_blob_temp_post(pending.blob)
                } else {
                    let m = old(self).store@;
                    let object = Object {
                        bucket_name: pending.bucket_name,
                        oid: pending.oid,
                        last_modified: next_time(m.clock, now),
                        blob_id: Some(pending.blob),
                    };
                    let blob = Blob { id: pending.blob, size: pending.size, placement: pending.location, etag };
                    match m.commit_object_error(object, blob) {
                        Some(e) => r == Err::<(Timestamp, Option<Blob>), ErrorCode>(e) && final(self).store@ == m,
                        None => r == Ok::<(Timestamp, Option<Blob>), ErrorCode>(
                            (next_time(m.clock, now), m.previous_blob(pending.bucket_name@, pending.oid@)),
                        ) && final(self).store@ == m.commit_object_post(object, blob, now),
                    }
                },
            },
    {
        match upload {
            Err(e) => {
                self.store.delete_blob_temp(pending.blob);
                Err(e)
            },
            Ok((etag, stored)) => {
                if stored != pending.size {
                    self.store.delete_blob_temp(pending.blob);
                    return Err(ErrorCode::InternalError);
                }
                let ts = if now > self.store.clock() { now } else { self.store.clock() };
                let object = Object {
                    bucket_name: pending.bucket_name.clone(),
                    oid: pending.oid.clone(),
                    last_modified: ts,
                    blob_id: Some(pending.blob),
                };
                let blob = Blob {
                    id: pending.blob,
                    size: pending.size,
                    placement: pending.location.duplicate(),
                    etag,
                };
                self.store.commit_object(&object, &blob, now)
            },
        }
    }

    /// Where a read of (bucket, key) goes, and the stored headers. A missing
    /// object, or one without a blob, is `NoSuchKey`.
    pub fn get_object(&self, bucket: &str, key: &str) -> (r: Result<ReadPlan, ErrorCode>)
        requires
            self.store@.inv(),
        ensures
            match self.store@.object_with_blob(bucket@, key@) {
                Some((o, Some(b))) => (r matches Ok(p) && p.key@ == uuid_text(b.id) && p.location == b.placement
                    && p.etag == b.etag && p.last_modified == o.last_modified && p.size == b.size),
                _ => r == Err::<ReadPlan, ErrorCode>(ErrorCode::NoSuchKey),
            },
    {
        match self.store.get_object(bucket, key) {
            Some((o, Some(b))) => Ok(ReadPlan {
                key: blob_key_text(b.id),
                location: b.placement,
                etag: b.etag,
                last_modified: o.last_modified,
                size: b.size,
            }),
            _ => Err(ErrorCode::NoSuchKey),
        }
    }

    /// First step of bucket creation: checks the request and reserves the
    /// name at a location chosen for it, whose backing bucket (where none is
    /// static) is named after `backend_id`. The caller then creates the
    /// backing bucket where `static_bucket` is absent.
    pub fn create_bucket_begin(
        &mut self,
        access_key: &Option<String>,
        bucket: &str,
        constraint: &Option<String>,
        backend_id: Uuid,
        now: Timestamp,
    ) -> (r: Result<(User, BlobLocation), ErrorCode>)
        requires
            old(self).store@.inv(),
        ensures
            final(self).store@.inv(),
            final(self).static_bucket == old(self).static_bucket,
            final(self).default_region == old(self).default_region,
            r is Err ==> final(self).store@ == old(self).store@,
            access_key is None ==> r == Err::<(User, BlobLocation), ErrorCode>(ErrorCode::AccessDenied),
            access_key matches Some(k) && old(self).store@.user_of_key(k@) is None ==> r == Err::<
                (User, BlobLocation),
                ErrorCode,
            >(ErrorCode::NoSuchKey),
            access_key matches Some(k) && old(self).store@.user_of_key(k@) is Some
                && old(self).store@.bucket_named(bucket@) is Some ==> r == Err::<
                (User, BlobLocation),
                ErrorCode,
            >(ErrorCode::BucketAlreadyExists),
            r matches Ok((u, loc)) ==> {
                &&& (access_key matches Some(k) && old(self).store@.user_of_key(k@) == Some(u))
                &&& old(self).store@.bucket_named(bucket@) is None
                &&& loc.region@ == match constraint {
                    Some(c) => c@,
                    None => old(self).default_region@,
                }
                &&& loc.backend@ == match old(self).static_bucket {
                    Some(s) => s@,
                    None => backend_name_of(bucket@, backend_id),
                }
                &&& old(self).store@.create_bucket_temp_error(bucket@) is None
                &&& final(self).store@ == old(self).store@.create_bucket_temp_post(final(self).store@.buckets_temp.last())
                &&& final(self).store@.buckets_temp.last().name@ == bucket@
                &&& final(self).store@.buckets_temp.last().location == loc
            },
            access_key is Some && old(self).store@.user_of_key(access_key->0@) is Some
                && old(self).store@.bucket_named(bucket@) is None
                && old(self).store@.create_bucket_temp_error(bucket@) is None ==> r is Ok,
            access_key is Some && old(self).store@.user_of_key(access_key->0@) is Some
                && old(self).store@.bucket_named(bucket@) is None
                && old(self).store@.create_bucket_temp_error(bucket@) is Some ==> r == Err::<
                (User, BlobLocation),
                ErrorCode,
            >(old(self).store@.create_bucket_temp_error(bucket@)->0),
    {
        let k = match access_key {
            Some(k) => k,
            None => return Err(ErrorCode::AccessDenied),
        };
        let user = self.store.get_user_by_access_key(k.as_str())?;
        if self.store.get_bucket(bucket).is_some() {
            return Err(ErrorCode::BucketAlreadyExists);
        }
        let region = choose_region(constraint, self.default_region.as_str());
        let location = location_for(&self.static_bucket, region.as_str(), bucket, backend_id);
        self.store.create_bucket_temp(bucket, &location, now)?;
        Ok((user, location))
    }

    /// Last step of bucket creation, given the outcome of the backing
    /// bucket's creation: on failure the reservation goes and the failure
    /// surfaces; on success the bucket is promoted, and should that fail
    /// the reservation goes too.
    pub fn create_bucket_finish(
        &mut self,
        bucket: &str,
        user: &User,
        location: &BlobLocation,
        backing: Result<(), ErrorCode>,
        now: Timestamp,
    ) -> (r: Result<(), ErrorCode>)
        requires
            old(self).store@.inv(),
        ensures
            final(self).store@.inv(),
            final(self).static_bucket == old(self).static_bucket,
            final(self).default_region == old(self).default_region,
            match backing {
                Err(e) => r == Err::<(), ErrorCode>(e) && final(self).store@
                    == old(self).store@.delete_bucket_temp_post(bucket@),
                Ok(()) => match old(self).store@.commit_bucket_error(bucket@) {
                    Some(e) => r == Err::<(), ErrorCode>(e) && final(self).store@
                        == old(self).store@.delete_bucket_temp_post(bucket@),
                    None => {
                        let row = final(self).store@.buckets.last();
                        &&& r is Ok
                        &&& row.name@ == bucket@ && row.owner == user.id && row.location == *location
                        &&& row.creation_date == now
                        &&& final(self).store@.partitions.last().table@ == crate::naming::partition_name_of(bucket@)
                        &&& final(self).store@ == old(self).store@.commit_bucket_post(
                            row,
                            final(self).store@.partitions.last().table,
                        )
                    },
                },
            },
    {
        match backing {
            Err(e) => {
                self.store.delete_bucket_temp(bucket);
                Err(e)
            },
            Ok(()) => match self.store.commit_bucket(bucket, user, location, now) {
                Ok(()) => Ok(()),
                Err(e) => {
                    self.store.delete_bucket_temp(bucket);
                    Err(e)
                },
            },
        }
    }

    /// Deletion of a bucket: checks the request, then removes the empty
    /// bucket and queues its backing bucket for the collector. Returns the
    /// job id and the location, so that the caller can try to delete the
    /// backing bucket at once and then end the job.
    pub fn delete_bucket(&mut self, authorized: bool, bucket: &str) -> (r: Result<(Uuid, BlobLocation), ErrorCode>)
        requires
            old(self).store@.inv(),
        ensures
            final(self).store@.inv(),
            final(self).static_bucket == old(self).static_bucket,
            final(self).default_region == old(self).default_region,
            r is Err ==> final(self).store@ == old(self).store@,
            !authorized ==> r == Err::<(Uuid, BlobLocation), ErrorCode>(ErrorCode::AccessDenied),
            authorized && old(self).store@.bucket_named(bucket@) is None ==> r == Err::<
                (Uuid, BlobLocation),
                ErrorCode,
            >(ErrorCode::NoSuchBucket),
            authorized && old(self).store@.bucket_named(bucket@) is Some && !old(self).store@.bucket_is_empty(bucket@)
                ==> r == Err::<(Uuid, BlobLocation), ErrorCode>(ErrorCode::BucketNotEmpty),
            // a live, empty bucket fails only on a drawn job id that is already queued
            r matches Err(e) ==> (authorized && old(self).store@.bucket_named(bucket@) is Some
                && old(self).store@.bucket_is_empty(bucket@) ==> exists|id: Uuid|
                old(self).store@.delete_bucket_error(bucket@, id) == Some(e)),
            authorized && old(self).store@.bucket_named(bucket@) is Some && old(self).store@.bucket_is_empty(bucket@)
                && old(self).store@.buckets_gc.len() == 0 ==> r is Ok,
            r matches Ok((id, loc)) ==> authorized && (old(self).store@.bucket_named(bucket@) matches Some(b)
                && loc == b.location && old(self).store@.delete_bucket_error(bucket@, id) is None
                && final(self).store@ == old(self).store@.delete_bucket_post(
                bucket@,
                crate::meta_store::BucketGcJob { id, location: loc },
            )),
    {
        if !authorized {
            return Err(ErrorCode::AccessDenied);
        }
        let b = match self.store.get_bucket(bucket) {
            Some(b) => b,
            None => return Err(ErrorCode::NoSuchBucket),
        };
        proof {
            crate::table::lemma_row_with_key(self.store@.buckets, crate::model::bucket_key(), bucket@);
            assert(self.store@.has_bucket(bucket@));
            assert(self.store@.has_partition(bucket@));
        }
        let id = self.store.delete_bucket(bucket, &b.location)?;
        Ok((id, b.location))
    }

    /// The upload that a completion or an abort refers to. Checks the
    /// credentials first, then the bucket, then the upload.
    pub fn upload_to_complete(&self, authorized: bool, bucket: &str, key: &str, upload_id: &str) -> (r: Result<MultipartUpload, ErrorCode>)
        requires
            self.store@.inv(),
        ensures
            !authorized ==> r == Err::<MultipartUpload, ErrorCode>(ErrorCode::AccessDenied),
            authorized && self.store@.bucket_named(bucket@) is None ==> r == Err::<MultipartUpload, ErrorCode>(
                ErrorCode::NoSuchBucket,
            ),
            authorized && self.store@.bucket_named(bucket@) is Some ==> match self.store@.upload_named(bucket@, key@, upload_id@) {
                Some(u) => r == Ok::<MultipartUpload, ErrorCode>(u),
                None => r == Err::<MultipartUpload, ErrorCode>(ErrorCode::NoSuchUpload),
            },
    {
        if !authorized {
            return Err(ErrorCode::AccessDenied);
        }
        if self.store.get_bucket(bucket).is_none() {
            return Err(ErrorCode::NoSuchBucket);
        }
        match self.store.get_multipart(bucket, key, upload_id) {
            Some(u) => Ok(u),
            None => Err(ErrorCode::NoSuchUpload),
        }
    }

    /// The upload that a part refers to. Checks the bucket first, then the
    /// credentials, then the upload.
    pub fn find_upload(&self, authorized: bool, bucket: &str, key: &str, upload_id: &str) -> (r: Result<MultipartUpload, ErrorCode>)
        requires
            self.store@.inv(),
        ensures
            self.store@.bucket_named(bucket@) is None ==> r == Err::<MultipartUpload, ErrorCode>(ErrorCode::NoSuchBucket),
            self.store@.bucket_named(bucket@) is Some && !authorized ==> r == Err::<MultipartUpload, ErrorCode>(
                ErrorCode::AccessDenied,
            ),
            self.store@.bucket_named(bucket@) is Some && authorized ==> match self.store@.upload_named(bucket@, key@, upload_id@) {
                Some(u) => r == Ok::<MultipartUpload, ErrorCode>(u),
                None => r == Err::<MultipartUpload, ErrorCode>(ErrorCode::NoSuchUpload),
            },
    {
        if self.store.get_bucket(bucket).is_none() {
            return Err(ErrorCode::NoSuchBucket);
        }
        if !authorized {
            return Err(ErrorCode::AccessDenied);
        }
        match self.store.get_multipart(bucket, key, upload_id) {
            Some(u) => Ok(u),
            None => Err(ErrorCode::NoSuchUpload),
        }
    }

    /// First step of a multipart upload: checks the request; the caller then
    /// starts the upload in the returned bucket's location under the key of
    /// a fresh blob.
    pub fn create_multipart_begin(&self, authorized: bool, bucket: &str, class: &Option<String>) -> (r: Result<Bucket, ErrorCode>)
        requires
            self.store@.inv(),
        ensures
            !storage_class_ok(*class) ==> r == Err::<Bucket, ErrorCode>(ErrorCode::InvalidStorageClass),
            storage_class_ok(*class) && !authorized ==> r == Err::<Bucket, ErrorCode>(ErrorCode::AccessDenied),
            storage_class_ok(*class) && authorized ==> match self.store@.bucket_named(bucket@) {
                Some(b) => r == Ok::<Bucket, ErrorCode>(b),
                None => r == Err::<Bucket, ErrorCode>(ErrorCode::NoSuchBucket),
            },
    {
        check_storage_class(class)?;
        if !authorized {
            return Err(ErrorCode::AccessDenied);
        }
        match self.store.get_bucket(bucket) {
            Some(b) => Ok(b),
            None => Err(ErrorCode::NoSuchBucket),
        }
    }

    /// Last step of a multipart upload, given the blob's total size and
    /// entity tag from the backing store: the blob and its object replace the
    /// live object of the key, and the upload ends.
    pub fn complete_multipart_finish(&mut self, upload: &MultipartUpload, size: i64, etag: String, now: Timestamp) -> (r: Result<(Timestamp, Option<Blob>), ErrorCode>)
        requires
            old(self).store@.inv(),
        ensures
            final(self).store@.inv(),
            final(self).static_bucket == old(self).static_bucket,
            final(self).default_region == old(self).default_region,
            ({
                let m = old(self).store@;
                let object = Object {
                    bucket_name: upload.bucket,
                    oid: upload.oid,
                    last_modified: next_time(m.clock, now),
                    blob_id: Some(upload.blob_id),
                };
                let blob = Blob { id: upload.blob_id, size, placement: upload.location, etag };
                match m.complete_multipart_error(object, blob, *upload) {
                    Some(e) => r == Err::<(Timestamp, Option<Blob>), ErrorCode>(e) && final(self).store@ == m,
                    None => r == Ok::<(Timestamp, Option<Blob>), ErrorCode>(
                        (next_time(m.clock, now), m.previous_blob(upload.bucket@, upload.oid@)),
                    ) && final(self).store@ == m.complete_multipart_post(object, blob, *upload, now),
                }
            }),
    {
        let ts = if now > self.store.clock() { now } else { self.store.clock() };
        let object = Object {
            bucket_name: upload.bucket.clone(),
            oid: upload.oid.clone(),
            last_modified: ts,
            blob_id: Some(upload.blob_id),
        };
        let blob = Blob { id: upload.blob_id, size, placement: upload.location.duplicate(), etag };
        self.store.complete_multipart(&object, &blob, upload, now)
    }
}

/// Two to the power `n`.
pub open spec fn pow2(n: nat) -> nat
    decreases n,
{
    if n == 0 {
        1
    } else {
        2 * pow2((n - 1) as nat)
    }
}

/// The wait of the collector before its retry number `attempt` (from 0):
/// `base` doubled once per earlier retry, never more than `cap`.
pub fn gc_backoff(attempt: u32, base: u64, cap: u64) -> (r: u64)
    ensures
        r == if base * pow2(attempt as nat) <= cap {
            base * pow2(attempt as nat)
        } else {
            cap as int
        },
{
    let mut d: u64 = if base <= cap { base } else { cap };
    let mut i: u32 = 0;
    proof {
        assert(pow2(0) == 1);
        assert(base * pow2(0) == base);
    }
    while i < attempt
        invariant
            i <= attempt,
            d == if base * pow2(i as nat) <= cap {
                base * pow2(i as nat)
            } else {
                cap as int
            },
        decreases attempt - i,
    {
        proof {
            assert(pow2((i + 1) as nat) == 2 * pow2(i as nat));
            assert(base * pow2((i + 1) as nat) == 2 * (base * pow2(i as nat))) by (nonlinear_arith)
                requires
                    pow2((i + 1) as nat) == 2 * pow2(i as nat),
            ;
            assert(base * pow2(i as nat) >= 0) by (nonlinear_arith);
        }
        if d < cap && d <= cap / 2 {
            d = d * 2;
        } else {
            d = cap;
        }
        i += 1;
    }
    d
}

} // verus!
