//! Rows of the metadata schema.
use vstd::prelude::*;

verus! {

/// Identifier of a user account.
pub type AccountId = String;

/// A point in time, in microseconds since the Unix epoch.
pub type Timestamp = i64;

/// A UUID, as its 128-bit value.
pub type Uuid = u128;

#[derive(Debug, Clone)]
pub struct User {
    pub id: AccountId,
    pub name: String,
    pub email: String,
    pub creation_date: Timestamp,
}

#[derive(Debug, Clone)]
pub struct Key {
    pub access_key: String,
    pub secret_key: String,
    pub account: AccountId,
}

/// Where a blob physically resides: a region and the bucket of the backing store.
#[derive(Debug, Clone)]
pub struct BlobLocation {
    pub region: String,
    pub backend: String,
}

#[derive(Debug, Clone)]
pub struct Bucket {
    pub name: String,
    pub owner: AccountId,
    pub creation_date: Timestamp,
    pub location: BlobLocation,
}

/// A bucket name reserved by the first phase of bucket creation.
#[derive(Debug, Clone)]
pub struct PendingBucket {
    pub name: String,
    pub location: BlobLocation,
    pub creation_date: Timestamp,
}

/// A partition of the objects table: the bucket whose objects it holds and
/// the name of its table.
#[derive(Debug, Clone)]
pub struct Partition {
    pub bucket: String,
    pub table: String,
}

/// A deleted bucket whose backing-store bucket is still to be removed.
#[derive(Debug, Clone)]
pub struct BucketGcJob {
    pub id: Uuid,
    pub location: BlobLocation,
}

/// A client-visible entry of a bucket.
#[derive(Debug, Clone)]
pub struct Object {
    pub bucket_name: String,
    pub oid: String,
    pub last_modified: Timestamp,
    /// The blob that holds the payload.
    pub blob_id: Option<Uuid>,
}

/// An immutable payload in a backing store, keyed there by its id.
#[derive(Debug, Clone)]
pub struct Blob {
    pub id: Uuid,
    /// Total size in bytes.
    pub size: i64,
    pub placement: BlobLocation,
    pub etag: String,
}

/// A blob whose upload started and whose object is not committed yet.
#[derive(Debug, Clone)]
pub struct TempBlob {
    pub id: Uuid,
    pub uploaded_at: Timestamp,
    pub location: BlobLocation,
}

#[derive(Debug, Clone)]
pub struct MultipartUpload {
    pub bucket: String,
    pub oid: String,
    pub upload_id: String,
    pub blob_id: Uuid,
    pub uploaded_at: Timestamp,
    pub location: BlobLocation,
}

/// One page of a listing.
#[derive(Debug, Clone)]
pub struct ListResult {
    pub objects: Vec<(Object, Option<Blob>)>,
    pub common_prefixes: Vec<String>,
    pub marker: Option<String>,
    pub version_marker: Option<String>,
}

impl BlobLocation {
    /// A copy equal to `self`.
    pub fn duplicate(&self) -> (r: Self)
        ensures
            r == *self,
    {
        BlobLocation { region: self.region.clone(), backend: self.backend.clone() }
    }
}

impl Blob {
    /// A copy equal to `self`.
    pub fn duplicate(&self) -> (r: Self)
        ensures
            r == *self,
    {
        Blob { id: self.id, size: self.size, placement: self.placement.duplicate(), etag: self.etag.clone() }
    }
}

impl Object {
    /// A copy equal to `self`.
    pub fn duplicate(&self) -> (r: Self)
        ensures
            r == *self,
    {
        Object {
            bucket_name: self.bucket_name.clone(),
            oid: self.oid.clone(),
            last_modified: self.last_modified,
            blob_id: self.blob_id,
        }
    }
}

impl User {
    /// A copy equal to `self`.
    pub fn duplicate(&self) -> (r: Self)
        ensures
            r == *self,
    {
        User {
            id: self.id.clone(),
            name: self.name.clone(),
            email: self.email.clone(),
            creation_date: self.creation_date,
        }
    }
}

impl Key {
    /// A copy equal to `self`.
    pub fn duplicate(&self) -> (r: Self)
        ensures
            r == *self,
    {
        Key {
            access_key: self.access_key.clone(),
            secret_key: self.secret_key.clone(),
            account: self.account.clone(),
        }
    }
}

impl Bucket {
    /// A copy equal to `self`.
    pub fn duplicate(&self) -> (r: Self)
        ensures
            r == *self,
    {
        Bucket {
            name: self.name.clone(),
            owner: self.owner.clone(),
            creation_date: self.creation_date,
            location: self.location.duplicate(),
        }
    }
}

impl TempBlob {
    /// A copy equal to `self`.
    pub fn duplicate(&self) -> (r: Self)
        ensures
            r == *self,
    {
        TempBlob { id: self.id, uploaded_at: self.uploaded_at, location: self.location.duplicate() }
    }
}

impl BucketGcJob {
    /// A copy equal to `self`.
    pub fn duplicate(&self) -> (r: Self)
        ensures
            r == *self,
    {
        BucketGcJob { id: self.id, location: self.location.duplicate() }
    }
}

impl MultipartUpload {
    /// A copy equal to `self`.
    pub fn duplicate(&self) -> (r: Self)
        ensures
            r == *self,
    {
        MultipartUpload {
            bucket: self.bucket.clone(),
            oid: self.oid.clone(),
            upload_id: self.upload_id.clone(),
            blob_id: self.blob_id,
            uploaded_at: self.uploaded_at,
            location: self.location.duplicate(),
        }
    }
}

} // verus!
