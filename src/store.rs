//! The metadata store: the tables of the schema held in memory, changed only
//! by whole transactions that either apply completely or leave every table
//! as it was.
use vstd::prelude::*;
use crate::error::ErrorCode;
use crate::meta_store::{
    Blob, BlobLocation, Bucket, BucketGcJob, Key, ListResult, MultipartUpload, Object, Partition,
    PendingBucket, TempBlob, Timestamp, User, Uuid,
};
use crate::ids::new_uuid;
use crate::naming::{partition_name, partition_name_of};
use crate::listing::{
    chars_of, is_group_key, is_page, lemma_group_key, lemma_lex_irreflexive, lemma_lex_total,
    lemma_lex_transitive, lex_lt, list_page, lt, page_keys, row_ok, strictly_sorted,
};
use crate::model::{
    access_key, blob_key, bucket_key, empty_model, id_key, job_key, next_time, partition_key,
    table_key,
    object_key, pending_key, temp_key, upload_key, user_key, StoreModel,
};
use crate::table::{has_key_in, index_of_key, lemma_index_of_key, row_with_key, unique_by};
use crate::invariants::{
    lemma_abort_multipart_inv, lemma_add_key_inv, lemma_add_user_inv, lemma_commit_bucket_inv,
    lemma_commit_object_inv, lemma_complete_multipart_inv, lemma_create_blob_temp_inv,
    lemma_create_bucket_temp_inv, lemma_create_multipart_inv, lemma_delete_blob_gc_inv,
    lemma_delete_blob_temp_inv, lemma_delete_bucket_complete_inv, lemma_delete_bucket_inv,
    lemma_delete_bucket_temp_inv, lemma_delete_object_inv, lemma_empty_inv,
};

verus! {

pub struct MetaStore {
    users: Vec<User>,
    keys: Vec<Key>,
    buckets: Vec<Bucket>,
    buckets_temp: Vec<PendingBucket>,
    buckets_gc: Vec<BucketGcJob>,
    partitions: Vec<Partition>,
    objects: Vec<Object>,
    blobs: Vec<Blob>,
    temp_blobs: Vec<TempBlob>,
    blobs_gc: Vec<Uuid>,
    uploads: Vec<MultipartUpload>,
    clock: Timestamp,
}

impl View for MetaStore {
    type V = StoreModel;

    closed spec fn view(&self) -> StoreModel {
        StoreModel {
            users: self.users@,
            keys: self.keys@,
            buckets: self.buckets@,
            buckets_temp: self.buckets_temp@,
            buckets_gc: self.buckets_gc@,
            partitions: self.partitions@,
            objects: self.objects@,
            blobs: self.blobs@,
            temp_blobs: self.temp_blobs@,
            blobs_gc: self.blobs_gc@,
            uploads: self.uploads@,
            clock: self.clock,
        }
    }
}

impl MetaStore {
    /// An empty store.
    pub fn new() -> (r: Self)
        ensures
            r@ == empty_model(),
            r@.inv(),
    {
        proof {
            lemma_empty_inv();
        }
        let r = MetaStore {
            users: Vec::new(),
            keys: Vec::new(),
            buckets: Vec::new(),
            buckets_temp: Vec::new(),
            buckets_gc: Vec::new(),
            partitions: Vec::new(),
            objects: Vec::new(),
            blobs: Vec::new(),
            temp_blobs: Vec::new(),
            blobs_gc: Vec::new(),
            uploads: Vec::new(),
            clock: i64::MIN,
        };
        assert(r@ =~= empty_model());
        r
    }

    fn find_user(&self, id: &String) -> (r: Option<usize>)
        requires
            self@.keys_unique(),
        ensures
            r is None <==> !has_key_in(self@.users, user_key(), id@),
            r matches Some(i) ==> i == index_of_key(self@.users, user_key(), id@) && i
                < self@.users.len(),
    {
        let mut i: usize = 0;
        while i < self.users.len()
            invariant
                self@.keys_unique(),
                i <= self.users@.len(),
                forall|j: int| 0 <= j < i ==> user_key()(#[trigger] self.users@[j]) != id@,
            decreases self.users@.len() - i,
        {
            if self.users[i].id == *id {
                proof {
                    lemma_index_of_key(self@.users, user_key(), i as int);
                }
                return Some(i);
            }
            i += 1;
        }
        None
    }

    fn find_key(&self, access: &String) -> (r: Option<usize>)
        requires
            self@.keys_unique(),
        ensures
            r is None <==> !has_key_in(self@.keys, access_key(), access@),
            r matches Some(i) ==> i == index_of_key(self@.keys, access_key(), access@) && i
                < self@.keys.len(),
    {
        let mut i: usize = 0;
        while i < self.keys.len()
            invariant
                self@.keys_unique(),
                i <= self.keys@.len(),
                forall|j: int| 0 <= j < i ==> access_key()(#[trigger] self.keys@[j]) != access@,
            decreases self.keys@.len() - i,
        {
            if self.keys[i].access_key == *access {
                proof {
                    lemma_index_of_key(self@.keys, access_key(), i as int);
                }
                return Some(i);
            }
            i += 1;
        }
        None
    }

    fn find_bucket(&self, name: &String) -> (r: Option<usize>)
        requires
            self@.keys_unique(),
        ensures
            r is None <==> !has_key_in(self@.buckets, bucket_key(), name@),
            r matches Some(i) ==> i == index_of_key(self@.buckets, bucket_key(), name@) && i
                < self@.buckets.len(),
    {
        let mut i: usize = 0;
        while i < self.buckets.len()
            invariant
                self@.keys_unique(),
                i <= self.buckets@.len(),
                forall|j: int| 0 <= j < i ==> bucket_key()(#[trigger] self.buckets@[j]) != name@,
            decreases self.buckets@.len() - i,
        {
            if self.buckets[i].name == *name {
                proof {
                    lemma_index_of_key(self@.buckets, bucket_key(), i as int);
                }
                return Some(i);
            }
            i += 1;
        }
        None
    }

    fn find_pending(&self, name: &String) -> (r: Option<usize>)
        requires
            self@.keys_unique(),
        ensures
            r is None <==> !has_key_in(self@.buckets_temp, pending_key(), name@),
            r matches Some(i) ==> i == index_of_key(self@.buckets_temp, pending_key(), name@) && i
                < self@.buckets_temp.len(),
    {
        let mut i: usize = 0;
        while i < self.buckets_temp.len()
            invariant
                self@.keys_unique(),
                i <= self.buckets_temp@.len(),
                forall|j: int| 0 <= j < i ==> pending_key()(#[trigger] self.buckets_temp@[j]) != name@,
            decreases self.buckets_temp@.len() - i,
        {
            if self.buckets_temp[i].name == *name {
                proof {
                    lemma_index_of_key(self@.buckets_temp, pending_key(), i as int);
                }
                return Some(i);
            }
            i += 1;
        }
        None
    }

    fn find_bucket_job(&self, id: Uuid) -> (r: Option<usize>)
        requires
            self@.keys_unique(),
        ensures
            r is None <==> !has_key_in(self@.buckets_gc, job_key(), id),
            r matches Some(i) ==> i == index_of_key(self@.buckets_gc, job_key(), id) && i
                < self@.buckets_gc.len(),
    {
        let mut i: usize = 0;
        while i < self.buckets_gc.len()
            invariant
                self@.keys_unique(),
                i <= self.buckets_gc@.len(),
                forall|j: int| 0 <= j < i ==> job_key()(#[trigger] self.buckets_gc@[j]) != id,
            decreases self.buckets_gc@.len() - i,
        {
            if self.buckets_gc[i].id == id {
                proof {
                    lemma_index_of_key(self@.buckets_gc, job_key(), i as int);
                }
                return Some(i);
            }
            i += 1;
        }
        None
    }

    fn find_partition(&self, name: &String) -> (r: Option<usize>)
        requires
            self@.keys_unique(),
        ensures
            r is None <==> !has_key_in(self@.partitions, partition_key(), name@),
            r matches Some(i) ==> i == index_of_key(self@.partitions, partition_key(), name@) && i
                < self@.partitions.len(),
    {
        let mut i: usize = 0;
        while i < self.partitions.len()
            invariant
                self@.keys_unique(),
                i <= self.partitions@.len(),
                forall|j: int| 0 <= j < i ==> partition_key()(#[trigger] self.partitions@[j]) != name@,
            decreases self.partitions@.len() - i,
        {
            if self.partitions[i].bucket == *name {
                proof {
                    lemma_index_of_key(self@.partitions, partition_key(), i as int);
                }
                return Some(i);
            }
            i += 1;
        }
        None
    }

    fn find_table(&self, name: &String) -> (r: Option<usize>)
        requires
            self@.keys_unique(),
        ensures
            r is None <==> !has_key_in(self@.partitions, table_key(), name@),
            r matches Some(i) ==> i == index_of_key(self@.partitions, table_key(), name@) && i
                < self@.partitions.len(),
    {
        let mut i: usize = 0;
        while i < self.partitions.len()
            invariant
                self@.keys_unique(),
                i <= self.partitions@.len(),
                forall|j: int| 0 <= j < i ==> table_key()(#[trigger] self.partitions@[j]) != name@,
            decreases self.partitions@.len() - i,
        {
            if self.partitions[i].table == *name {
                proof {
                    lemma_index_of_key(self@.partitions, table_key(), i as int);
                }
                return Some(i);
            }
            i += 1;
        }
        None
    }

    fn find_object(&self, bucket: &String, oid: &String) -> (r: Option<usize>)
        requires
            self@.keys_unique(),
        ensures
            r is None <==> !has_key_in(self@.objects, object_key(), (bucket@, oid@)),
            r matches Some(i) ==> i == index_of_key(self@.objects, object_key(), (bucket@, oid@))
                && i < self@.objects.len(),
    {
        let mut i: usize = 0;
        while i < self.objects.len()
            invariant
                self@.keys_unique(),
                i <= self.objects@.len(),
                forall|j: int|
                    0 <= j < i ==> object_key()(#[trigger] self.objects@[j]) != (bucket@, oid@),
            decreases self.objects@.len() - i,
        {
            if self.objects[i].bucket_name == *bucket && self.objects[i].oid == *oid {
                proof {
                    lemma_index_of_key(self@.objects, object_key(), i as int);
                }
                return Some(i);
            }
            i += 1;
        }
        None
    }

    fn find_blob(&self, id: Uuid) -> (r: Option<usize>)
        requires
            self@.keys_unique(),
        ensures
            r is None <==> !has_key_in(self@.blobs, blob_key(), id),
            r matches Some(i) ==> i == index_of_key(self@.blobs, blob_key(), id) && i
                < self@.blobs.len(),
    {
        let mut i: usize = 0;
        while i < self.blobs.len()
            invariant
                self@.keys_unique(),
                i <= self.blobs@.len(),
                forall|j: int| 0 <= j < i ==> blob_key()(#[trigger] self.blobs@[j]) != id,
            decreases self.blobs@.len() - i,
        {
            if self.blobs[i].id == id {
                proof {
                    lemma_index_of_key(self@.blobs, blob_key(), i as int);
                }
                return Some(i);
            }
            i += 1;
        }
        None
    }

    fn find_temp_blob(&self, id: Uuid) -> (r: Option<usize>)
        requires
            unique_by(self@.temp_blobs, temp_key()),
        ensures
            r is None <==> !has_key_in(self@.temp_blobs, temp_key(), id),
            r matches Some(i) ==> i == index_of_key(self@.temp_blobs, temp_key(), id) && i
                < self@.temp_blobs.len(),
    {
        let mut i: usize = 0;
        while i < self.temp_blobs.len()
            invariant
                unique_by(self@.temp_blobs, temp_key()),
                i <= self.temp_blobs@.len(),
                forall|j: int| 0 <= j < i ==> temp_key()(#[trigger] self.temp_blobs@[j]) != id,
            decreases self.temp_blobs@.len() - i,
        {
            if self.temp_blobs[i].id == id {
                proof {
                    lemma_index_of_key(self@.temp_blobs, temp_key(), i as int);
                }
                return Some(i);
            }
            i += 1;
        }
        None
    }

    fn find_queued(&self, id: Uuid) -> (r: Option<usize>)
        requires
            self@.keys_unique(),
        ensures
            r is None <==> !has_key_in(self@.blobs_gc, id_key(), id),
            r matches Some(i) ==> i == index_of_key(self@.blobs_gc, id_key(), id) && i
                < self@.blobs_gc.len(),
    {
        let mut i: usize = 0;
        while i < self.blobs_gc.len()
            invariant
                self@.keys_unique(),
                i <= self.blobs_gc@.len(),
                forall|j: int| 0 <= j < i ==> id_key()(#[trigger] self.blobs_gc@[j]) != id,
            decreases self.blobs_gc@.len() - i,
        {
            if self.blobs_gc[i] == id {
                proof {
                    lemma_index_of_key(self@.blobs_gc, id_key(), i as int);
                }
                return Some(i);
            }
            i += 1;
        }
        None
    }

    fn find_upload(&self, bucket: &String, oid: &String, upload_id: &String) -> (r: Option<usize>)
        requires
            self@.keys_unique(),
        ensures
            r is None <==> !has_key_in(self@.uploads, upload_key(), (bucket@, oid@, upload_id@)),
            r matches Some(i) ==> i == index_of_key(
                self@.uploads,
                upload_key(),
                (bucket@, oid@, upload_id@),
            ) && i < self@.uploads.len(),
    {
        let mut i: usize = 0;
        while i < self.uploads.len()
            invariant
                self@.keys_unique(),
                i <= self.uploads@.len(),
                forall|j: int|
                    0 <= j < i ==> upload_key()(#[trigger] self.uploads@[j]) != (
                        bucket@,
                        oid@,
                        upload_id@,
                    ),
            decreases self.uploads@.len() - i,
        {
            if self.uploads[i].bucket == *bucket && self.uploads[i].oid == *oid
                && self.uploads[i].upload_id == *upload_id {
                proof {
                    lemma_index_of_key(self@.uploads, upload_key(), i as int);
                }
                return Some(i);
            }
            i += 1;
        }
        None
    }
}

impl MetaStore {
    /// Adds a user account.
    pub fn add_user(&mut self, user: &User) -> (r: Result<(), ErrorCode>)
        requires
            old(self)@.inv(),
        ensures
            final(self)@.inv(),
            match old(self)@.add_user_error(*user) {
                Some(e) => r == Err::<(), ErrorCode>(e) && final(self)@ == old(self)@,
                None => r is Ok && final(self)@ == (StoreModel { users: old(self)@.users.push(*user), ..old(self)@ }),
            },
    {
        if self.find_user(&user.id).is_some() {
            return Err(ErrorCode::InvalidArgument);
        }
        proof {
            lemma_add_user_inv(self@, *user);
        }
        self.users.push(user.duplicate());
        Ok(())
    }

    /// Adds an access key.
    pub fn add_key(&mut self, key: &Key) -> (r: Result<(), ErrorCode>)
        requires
            old(self)@.inv(),
        ensures
            final(self)@.inv(),
            match old(self)@.add_key_error(*key) {
                Some(e) => r == Err::<(), ErrorCode>(e) && final(self)@ == old(self)@,
                None => r is Ok && final(self)@ == (StoreModel { keys: old(self)@.keys.push(*key), ..old(self)@ }),
            },
    {
        if self.find_key(&key.access_key).is_some() {
            return Err(ErrorCode::InvalidArgument);
        }
        proof {
            lemma_add_key_inv(self@, *key);
        }
        self.keys.push(key.duplicate());
        Ok(())
    }

    /// The user that owns an access key; `NoSuchKey` where there is none.
    pub fn get_user_by_access_key(&self, key: &str) -> (r: Result<User, ErrorCode>)
        requires
            self@.inv(),
        ensures
            match self@.user_of_key(key@) {
                Some(u) => r == Ok::<User, ErrorCode>(u),
                None => r == Err::<User, ErrorCode>(ErrorCode::NoSuchKey),
            },
    {
        let access = key.to_owned();
        match self.find_key(&access) {
            None => Err(ErrorCode::NoSuchKey),
            Some(i) => match self.find_user(&self.keys[i].account) {
                None => Err(ErrorCode::NoSuchKey),
                Some(j) => Ok(self.users[j].duplicate()),
            },
        }
    }

    /// The live bucket of that name.
    pub fn get_bucket(&self, name: &str) -> (r: Option<Bucket>)
        requires
            self@.inv(),
        ensures
            r == self@.bucket_named(name@),
    {
        let name = name.to_owned();
        match self.find_bucket(&name) {
            None => None,
            Some(i) => Some(self.buckets[i].duplicate()),
        }
    }

    /// Reserves a bucket name: the first phase of bucket creation.
    pub fn create_bucket_temp(&mut self, name: &str, location: &BlobLocation, now: Timestamp) -> (r: Result<(), ErrorCode>)
        requires
            old(self)@.inv(),
        ensures
            final(self)@.inv(),
            match old(self)@.create_bucket_temp_error(name@) {
                Some(e) => r == Err::<(), ErrorCode>(e) && final(self)@ == old(self)@,
                None => {
                    let row = final(self)@.buckets_temp.last();
                    &&& r is Ok
                    &&& row.name@ == name@ && row.location == *location && row.creation_date == now
                    &&& final(self)@ == old(self)@.create_bucket_temp_post(row)
                },
            },
    {
        let name = name.to_owned();
        if self.find_pending(&name).is_some() {
            return Err(ErrorCode::BucketAlreadyExists);
        }
        let row = PendingBucket { name, location: location.duplicate(), creation_date: now };
        proof {
            lemma_create_bucket_temp_inv(self@, row);
        }
        self.buckets_temp.push(row);
        assert(self@.buckets_temp.last() == row);
        Ok(())
    }

    /// Drops the reservation of a bucket name.
    pub fn delete_bucket_temp(&mut self, name: &str)
        requires
            old(self)@.inv(),
        ensures
            final(self)@.inv(),
            final(self)@ == old(self)@.delete_bucket_temp_post(name@),
    {
        proof {
            lemma_delete_bucket_temp_inv(self@, name@);
        }
        let name = name.to_owned();
        match self.find_pending(&name) {
            Some(i) => {
                self.buckets_temp.remove(i);
            },
            None => {},
        }
    }

    /// Promotes a pending bucket to a live one with its own partition of the
    /// objects table, all at once.
    pub fn commit_bucket(&mut self, name: &str, user: &User, location: &BlobLocation, now: Timestamp) -> (r: Result<(), ErrorCode>)
        requires
            old(self)@.inv(),
        ensures
            final(self)@.inv(),
            match old(self)@.commit_bucket_error(name@) {
                Some(e) => r == Err::<(), ErrorCode>(e) && final(self)@ == old(self)@,
                None => {
                    let row = final(self)@.buckets.last();
                    &&& r is Ok
                    &&& row.name@ == name@ && row.owner == user.id && row.location == *location
                    &&& row.creation_date == now
                    &&& final(self)@.partitions.last().table@ == partition_name_of(name@)
                    &&& final(self)@ == old(self)@.commit_bucket_post(row, final(self)@.partitions.last().table)
                },
            },
    {
        let name = name.to_owned();
        if self.find_bucket(&name).is_some() || self.find_partition(&name).is_some() {
            return Err(ErrorCode::BucketAlreadyExists);
        }
        let table = partition_name(name.as_str());
        if self.find_table(&table).is_some() {
            return Err(ErrorCode::InternalError);
        }
        let row = Bucket {
            name: name.clone(),
            owner: user.id.clone(),
            creation_date: now,
            location: location.duplicate(),
        };
        let ghost m = self@;
        let ghost t = table;
        proof {
            lemma_commit_bucket_inv(m, row, table);
        }
        match self.find_pending(&name) {
            Some(i) => {
                self.buckets_temp.remove(i);
            },
            None => {},
        }
        self.partitions.push(Partition { bucket: name, table });
        self.buckets.push(row);
        assert(self@.buckets.last() == row);
        assert(self@.partitions.last().table == t);
        assert(self@ == m.commit_bucket_post(row, t));
        Ok(())
    }

    /// The live buckets of a user, in ascending order of their names.
    pub fn list_buckets_by_user(&self, user_id: &str) -> (r: Vec<Bucket>)
        requires
            self@.inv(),
        ensures
            strictly_sorted(r@.map_values(|b: Bucket| b.name@)),
            forall|b: Bucket| #[trigger] r@.contains(b) <==> self@.buckets.contains(b) && b.owner@ == user_id@,
    {
        let owner = user_id.to_owned();
        let mut names: Vec<Vec<char>> = Vec::new();
        let mut idx: Vec<usize> = Vec::new();
        let mut i: usize = 0;
        while i < self.buckets.len()
            invariant
                i <= self.buckets@.len(),
                owner@ == user_id@,
                names@.len() == idx@.len(),
                names_of_owner(names@, idx@, self.buckets@, user_id@),
                forall|j: int|
                    0 <= j < i && (#[trigger] self.buckets@[j]).owner@ == user_id@ ==> exists|k: int|
                        0 <= k < idx@.len() && idx@[k] == j,
            decreases self.buckets@.len() - i,
        {
            let ghost old_idx = idx@;
            let ghost old_names = names@;
            if self.buckets[i].owner == owner {
                let ghost n = idx@.len();
                let cs = chars_of(self.buckets[i].name.as_str());
                assert(cs@ == self.buckets@[i as int].name@);
                names.push(cs);
                idx.push(i);
                assert(idx@[n as int] == i);
                assert(names@[n as int]@ == self.buckets@[i as int].name@);
                assert(self.buckets@[i as int].owner@ == user_id@);
            }
            assert forall|k: int| 0 <= k < old_idx.len() implies idx@[k] == old_idx[k] && names@[k] == old_names[k] by {}
            i += 1;
        }
        let mut r: Vec<Bucket> = Vec::new();
        let mut done = false;
        while !done
            invariant
                self@.inv(),
                names@.len() == idx@.len(),
                names_of_owner(names@, idx@, self.buckets@, user_id@),
                forall|j: int|
                    0 <= j < self.buckets@.len() && (#[trigger] self.buckets@[j]).owner@ == user_id@ ==> exists|k: int|
                        0 <= k < idx@.len() && idx@[k] == j,
                forall|b: Bucket| #[trigger] r@.contains(b) ==> self@.buckets.contains(b) && b.owner@ == user_id@,
                strictly_sorted(r@.map_values(|b: Bucket| b.name@)),
                r@.len() <= names@.len(),
                forall|k: int|
                    0 <= k < names@.len() && r@.len() > 0 && !lex_lt(r@.last().name@, (#[trigger] names@[k])@)
                        ==> r@.map_values(|b: Bucket| b.name@).contains(names@[k]@),
                done ==> forall|k: int|
                    0 <= k < names@.len() ==> r@.map_values(|b: Bucket| b.name@).contains((#[trigger] names@[k])@),
            decreases names@.len() - r@.len(), if done { 0int } else { 1int },
        {
            let last = if r.len() == 0 {
                None
            } else {
                Some(chars_of(r[r.len() - 1].name.as_str()))
            };
            let mut best: Option<usize> = None;
            let mut k: usize = 0;
            while k < names.len()
                invariant
                    k <= names@.len(),
                    last matches Some(l) ==> r@.len() > 0 && l@ == r@.last().name@,
                    last is None ==> r@.len() == 0,
                    best matches Some(bi) ==> bi < names@.len() && (r@.len() == 0 || lex_lt(r@.last().name@, names@[bi as int]@)),
                    best matches Some(bi) ==> forall|k2: int|
                        0 <= k2 < k && (r@.len() == 0 || lex_lt(r@.last().name@, (#[trigger] names@[k2])@))
                            ==> !lex_lt(names@[k2]@, names@[bi as int]@),
                    best is None ==> forall|k2: int|
                        0 <= k2 < k ==> !(r@.len() == 0 || lex_lt(r@.last().name@, (#[trigger] names@[k2])@)),
                decreases names@.len() - k,
            {
                let above = match &last {
                    None => true,
                    Some(l) => lt(l, &names[k]),
                };
                if above {
                    match best {
                        None => {
                            proof {
                                lemma_lex_irreflexive(names@[k as int]@);
                            }
                            best = Some(k);
                        },
                        Some(bi) => {
                            if lt(&names[k], &names[bi]) {
                                proof {
                                    assert forall|k2: int|
                                        0 <= k2 < k && (r@.len() == 0 || lex_lt(r@.last().name@, (#[trigger] names@[k2])@))
                                            implies !lex_lt(names@[k2]@, names@[k as int]@) by {
                                        if lex_lt(names@[k2]@, names@[k as int]@) {
                                            lemma_lex_transitive(names@[k2]@, names@[k as int]@, names@[bi as int]@);
                                        }
                                    }
                                    lemma_lex_irreflexive(names@[k as int]@);
                                }
                                best = Some(k);
                            }
                        },
                    }
                }
                k += 1;
            }
            match best {
                None => {
                    proof {
                        assert forall|k2: int| 0 <= k2 < names@.len() implies r@.map_values(|b: Bucket| b.name@).contains(
                            (#[trigger] names@[k2])@,
                        ) by {
                            if r@.len() > 0 {
                                assert(!lex_lt(r@.last().name@, names@[k2]@));
                            }
                        }
                    }
                    done = true;
                },
                Some(bi) => {
                    let ghost old_r = r@;
                    let ghost bk = names@[bi as int]@;
                    let b = self.buckets[idx[bi]].duplicate();
                    proof {
                        let on = old_r.map_values(|b: Bucket| b.name@);
                        // the new name is not on the page yet
                        if on.contains(bk) {
                            let w = choose|w: int| 0 <= w < on.len() && on[w] == bk;
                            if w < on.len() - 1 {
                                assert(lex_lt(on[w], on[on.len() - 1]));
                                assert(on[on.len() - 1] == old_r.last().name@);
                                lemma_lex_transitive(bk, old_r.last().name@, bk);
                            }
                            lemma_lex_irreflexive(bk);
                        }
                        assert forall|i2: int|
                            #![trigger old_r[i2]]
                            0 <= i2 < old_r.len() implies exists|k2: int|
                                #![trigger names@[k2]]
                                0 <= k2 < names@.len() && names@[k2]@ == old_r[i2].name@ by {
                            assert(old_r.contains(old_r[i2]));
                            let j = choose|j: int| 0 <= j < self@.buckets.len() && self@.buckets[j] == old_r[i2];
                            assert(self.buckets@[j].owner@ == user_id@);
                            let k2 = choose|k2: int| 0 <= k2 < idx@.len() && idx@[k2] == j;
                            assert(names@[k2]@ == old_r[i2].name@);
                        }
                        assert(names@[bi as int]@ == bk);
                        lemma_page_fits(old_r, names@, bk);
                    }
                    r.push(b);
                    proof {
                        let on = old_r.map_values(|b: Bucket| b.name@);
                        let nn = r@.map_values(|b: Bucket| b.name@);
                        assert(nn =~= on.push(bk));
                        assert(self@.buckets.contains(self@.buckets[idx@[bi as int] as int]));
                        assert forall|x: Bucket| #[trigger] r@.contains(x) implies self@.buckets.contains(x) && x.owner@ == user_id@ by {
                            if x != b {
                                assert(old_r.contains(x)) by {
                                    let w = choose|w: int| 0 <= w < r@.len() && r@[w] == x;
                                    assert(old_r[w] == x);
                                }
                            }
                        }
                        assert forall|i2: int, j2: int| 0 <= i2 < j2 < nn.len() implies lex_lt(#[trigger] nn[i2], #[trigger] nn[j2]) by {
                            if j2 == old_r.len() {
                                assert(nn[j2] == bk);
                                assert(lex_lt(old_r.last().name@, bk));
                                assert(on[on.len() - 1] == old_r.last().name@);
                                assert(nn[i2] == on[i2]);
                                if i2 < old_r.len() - 1 {
                                    assert(lex_lt(on[i2], on[on.len() - 1]));
                                    lemma_lex_transitive(on[i2], old_r.last().name@, bk);
                                }
                            } else {
                                assert(nn[i2] == on[i2] && nn[j2] == on[j2]);
                            }
                        }
                        assert forall|k2: int|
                            0 <= k2 < names@.len() && r@.len() > 0 && !lex_lt(r@.last().name@, (#[trigger] names@[k2])@)
                                implies nn.contains(names@[k2]@) by {
                            let ck = names@[k2]@;
                            if old_r.len() > 0 && !lex_lt(old_r.last().name@, ck) {
                                assert(on.contains(ck));
                                let w = choose|w: int| 0 <= w < on.len() && on[w] == ck;
                                assert(nn[w] == ck);
                            } else {
                                assert(r@.last().name@ == bk);
                                if ck != bk {
                                    lemma_lex_total(ck, bk);
                                }
                                assert(nn[old_r.len() as int] == ck);
                            }
                        }
                    }
                },
            }
        }
        proof {
            let nn = r@.map_values(|b: Bucket| b.name@);
            assert forall|b: Bucket| self@.buckets.contains(b) && b.owner@ == user_id@ implies #[trigger] r@.contains(b) by {
                let j = choose|j: int| 0 <= j < self@.buckets.len() && self@.buckets[j] == b;
                assert(self.buckets@[j].owner@ == user_id@);
                let k = choose|k: int| 0 <= k < idx@.len() && idx@[k] == j;
                assert(names@[k]@ == b.name@);
                assert(nn.contains(names@[k]@));
                let w = choose|w: int| 0 <= w < nn.len() && nn[w] == b.name@;
                let x = r@[w];
                assert(r@.contains(x));
                let jx = choose|jx: int| 0 <= jx < self@.buckets.len() && self@.buckets[jx] == x;
                assert(bucket_key()(self@.buckets[jx]) == bucket_key()(self@.buckets[j]));
            }
        }
        r
    }

    /// Removes an empty bucket: its row and its partition go, and a job for
    /// the garbage collector records its location in the backing store.
    /// Fails with `BucketNotEmpty` while any object lives in it.
    pub fn delete_bucket_with_job(&mut self, name: &str, location: &BlobLocation, job_id: Uuid) -> (r: Result<Uuid, ErrorCode>)
        requires
            old(self)@.inv(),
        ensures
            final(self)@.inv(),
            match old(self)@.delete_bucket_error(name@, job_id) {
                Some(e) => r == Err::<Uuid, ErrorCode>(e) && final(self)@ == old(self)@,
                None => r == Ok::<Uuid, ErrorCode>(job_id) && final(self)@
                    == old(self)@.delete_bucket_post(name@, BucketGcJob { id: job_id, location: *location }),
            },
    {
        let key = name.to_owned();
        let p = self.find_partition(&key);
        if p.is_none() {
            return Err(ErrorCode::NoSuchBucket);
        }
        let mut i: usize = 0;
        while i < self.objects.len()
            invariant
                self@ == old(self)@,
                self@.inv(),
                key@ == name@,
                has_key_in(self@.partitions, partition_key(), name@),
                i <= self.objects@.len(),
                forall|j: int| 0 <= j < i ==> (#[trigger] self.objects@[j]).bucket_name@ != name@,
            decreases self.objects@.len() - i,
        {
            if self.objects[i].bucket_name == key {
                assert(self@.objects.contains(self.objects@[i as int]));
                return Err(ErrorCode::BucketNotEmpty);
            }
            i += 1;
        }
        assert(self@.bucket_is_empty(name@));
        if self.find_bucket_job(job_id).is_some() {
            return Err(ErrorCode::InternalError);
        }
        let job = BucketGcJob { id: job_id, location: location.duplicate() };
        let ghost m = self@;
        proof {
            lemma_delete_bucket_inv(m, name@, job);
        }
        match self.find_bucket(&key) {
            Some(b) => {
                self.buckets.remove(b);
            },
            None => {},
        }
        match p {
            Some(k) => {
                self.partitions.remove(k);
            },
            None => {},
        }
        self.buckets_gc.push(job);
        assert(self@ == m.delete_bucket_post(name@, job));
        Ok(job_id)
    }

    /// Ends a bucket job of the garbage collector.
    pub fn delete_bucket_complete(&mut self, job_id: Uuid)
        requires
            old(self)@.inv(),
        ensures
            final(self)@.inv(),
            final(self)@ == old(self)@.delete_bucket_complete_post(job_id),
    {
        proof {
            lemma_delete_bucket_complete_inv(self@, job_id);
        }
        match self.find_bucket_job(job_id) {
            Some(i) => {
                self.buckets_gc.remove(i);
            },
            None => {},
        }
    }

    /// Records a blob whose upload is about to start: the first phase of
    /// the two-phase commit.
    pub fn create_blob_temp(&mut self, id: Uuid, location: &BlobLocation, now: Timestamp) -> (r: Result<(), ErrorCode>)
        requires
            old(self)@.inv(),
        ensures
            final(self)@.inv(),
            match old(self)@.create_blob_temp_error(id) {
                Some(e) => r == Err::<(), ErrorCode>(e) && final(self)@ == old(self)@,
                None => r is Ok && final(self)@ == old(self)@.create_blob_temp_post(
                    TempBlob { id, uploaded_at: now, location: *location },
                ),
            },
    {
        if self.find_temp_blob(id).is_some() {
            return Err(ErrorCode::InternalError);
        }
        let row = TempBlob { id, uploaded_at: now, location: location.duplicate() };
        proof {
            lemma_create_blob_temp_inv(self@, row);
        }
        self.temp_blobs.push(row);
        Ok(())
    }

    /// Forgets a blob whose upload did not happen.
    pub fn delete_blob_temp(&mut self, id: Uuid)
        requires
            old(self)@.inv(),
        ensures
            final(self)@.inv(),
            final(self)@ == old(self)@.delete_blob_temp_post(id),
    {
        proof {
            lemma_delete_blob_temp_inv(self@, id);
        }
        match self.find_temp_blob(id) {
            Some(i) => {
                self.temp_blobs.remove(i);
            },
            None => {},
        }
    }

    /// The shared part of the commits of an upload.
    fn replace_object(&mut self, object: &Object, blob: &Blob, now: Timestamp) -> (prev: Option<Blob>)
        requires
            old(self)@.inv(),
            old(self)@.commit_object_error(*object, *blob) is None,
        ensures
            final(self)@ == old(self)@.replace_object(*object, *blob, now),
            prev == old(self)@.previous_blob(object.bucket_name@, object.oid@),
    {
        let ghost m = self@;
        let ts = if now > self.clock { now } else { self.clock };
        let mut prev: Option<Blob> = None;
        match self.find_object(&object.bucket_name, &object.oid) {
            Some(i) => {
                let ghost k = (object.bucket_name@, object.oid@);
                assert(row_with_key(m.objects, object_key(), k) == Some(m.objects[i as int]));
                let old_row = self.objects.remove(i);
                match old_row.blob_id {
                    Some(id) => {
                        match self.find_blob(id) {
                            Some(j) => {
                                prev = Some(self.blobs[j].duplicate());
                            },
                            None => {},
                        }
                        self.blobs_gc.push(id);
                    },
                    None => {},
                }
            },
            None => {},
        }
        self.objects.push(
            Object {
                bucket_name: object.bucket_name.clone(),
                oid: object.oid.clone(),
                last_modified: ts,
                blob_id: Some(blob.id),
            },
        );
        self.blobs.push(blob.duplicate());
        self.clock = ts;
        assert(self@ == m.replace_object(*object, *blob, now));
        prev
    }

    /// The second phase of the two-phase commit, in one transaction: the
    /// blob's temporary row goes, the blob becomes live, and an object that
    /// refers to it replaces the live object of the same key, whose blob
    /// joins the collector's queue. Returns the object's timestamp and the
    /// replaced blob.
    pub fn commit_object(&mut self, object: &Object, blob: &Blob, now: Timestamp) -> (r: Result<(Timestamp, Option<Blob>), ErrorCode>)
        requires
            old(self)@.inv(),
        ensures
            final(self)@.inv(),
            match old(self)@.commit_object_error(*object, *blob) {
                Some(e) => r == Err::<(Timestamp, Option<Blob>), ErrorCode>(e) && final(self)@ == old(self)@,
                None => r == Ok::<(Timestamp, Option<Blob>), ErrorCode>(
                    (
                        next_time(old(self)@.clock, now),
                        old(self)@.previous_blob(object.bucket_name@, object.oid@),
                    ),
                ) && final(self)@ == old(self)@.commit_object_post(*object, *blob, now),
            },
    {
        if self.find_partition(&object.bucket_name).is_none() {
            return Err(ErrorCode::NoSuchBucket);
        }
        if self.find_blob(blob.id).is_some() {
            return Err(ErrorCode::InternalError);
        }
        let ghost m = self@;
        proof {
            lemma_commit_object_inv(m, *object, *blob, now);
        }
        let prev = self.replace_object(object, blob, now);
        match self.find_temp_blob(blob.id) {
            Some(i) => {
                self.temp_blobs.remove(i);
            },
            None => {},
        }
        assert(self@ == m.commit_object_post(*object, *blob, now));
        Ok((self.clock, prev))
    }
}

impl MetaStore {
    /// The live object at (bucket, key) with its blob.
    pub fn get_object(&self, bucket: &str, key: &str) -> (r: Option<(Object, Option<Blob>)>)
        requires
            self@.inv(),
        ensures
            r == self@.object_with_blob(bucket@, key@),
    {
        let b = bucket.to_owned();
        let k = key.to_owned();
        match self.find_object(&b, &k) {
            None => None,
            Some(i) => {
                let o = self.objects[i].duplicate();
                let blob = match o.blob_id {
                    Some(id) => match self.find_blob(id) {
                        Some(j) => Some(self.blobs[j].duplicate()),
                        None => None,
                    },
                    None => None,
                };
                Some((o, blob))
            },
        }
    }

    /// Removes the live object at (bucket, key) and queues its blob for
    /// collection, in one transaction; returns the blob so that the caller
    /// can try to delete it from the backing store at once.
    pub fn delete_object(&mut self, bucket: &str, key: &str) -> (r: Result<Blob, ErrorCode>)
        requires
            old(self)@.inv(),
        ensures
            final(self)@.inv(),
            match old(self)@.delete_object_error(bucket@, key@) {
                Some(e) => r == Err::<Blob, ErrorCode>(e) && final(self)@ == old(self)@,
                None => r == Ok::<Blob, ErrorCode>(
                    old(self)@.previous_blob(bucket@, key@)->0,
                ) && old(self)@.previous_blob(bucket@, key@) is Some
                    && final(self)@ == old(self)@.delete_object_post(bucket@, key@),
            },
    {
        let b = bucket.to_owned();
        let k = key.to_owned();
        let ghost m = self@;
        let i = match self.find_object(&b, &k) {
            None => return Err(ErrorCode::NoSuchKey),
            Some(i) => i,
        };
        let ghost o = m.objects[i as int];
        assert(m.live_object(bucket@, key@) == Some(o));
        let id = match self.objects[i].blob_id {
            None => return Err(ErrorCode::NoSuchKey),
            Some(id) => id,
        };
        assert(m.objects.contains(o));
        let j = match self.find_blob(id) {
            None => return Err(ErrorCode::InternalError),
            Some(j) => j,
        };
        proof {
            lemma_delete_object_inv(m, bucket@, key@);
        }
        let blob = self.blobs[j].duplicate();
        self.objects.remove(i);
        self.blobs_gc.push(id);
        assert(self@ == m.delete_object_post(bucket@, key@));
        Ok(blob)
    }

    /// Forgets a collected blob: its row and its queue entry go together.
    /// Fails while an object still refers to the blob.
    pub fn delete_blob_gc(&mut self, blob: &Blob) -> (r: Result<(), ErrorCode>)
        requires
            old(self)@.inv(),
        ensures
            final(self)@.inv(),
            match old(self)@.delete_blob_gc_error(blob.id) {
                Some(e) => r == Err::<(), ErrorCode>(e) && final(self)@ == old(self)@,
                None => r is Ok && final(self)@ == old(self)@.delete_blob_gc_post(blob.id),
            },
    {
        let ghost m = self@;
        let mut i: usize = 0;
        while i < self.objects.len()
            invariant
                self@ == m,
                m == old(self)@,
                m.inv(),
                i <= self.objects@.len(),
                forall|j: int| 0 <= j < i ==> (#[trigger] self.objects@[j]).blob_id != Some(blob.id),
            decreases self.objects@.len() - i,
        {
            if self.objects[i].blob_id == Some(blob.id) {
                assert(m.objects.contains(self.objects@[i as int]));
                return Err(ErrorCode::InternalError);
            }
            i += 1;
        }
        assert forall|o: Object| m.objects.contains(o) implies o.blob_id != Some(blob.id) by {
            let j = choose|j: int| 0 <= j < m.objects.len() && m.objects[j] == o;
            assert(self.objects@[j] == o);
        }
        proof {
            lemma_delete_blob_gc_inv(m, blob.id);
        }
        match self.find_blob(blob.id) {
            Some(j) => {
                self.blobs.remove(j);
            },
            None => {},
        }
        match self.find_queued(blob.id) {
            Some(j) => {
                self.blobs_gc.remove(j);
            },
            None => {},
        }
        assert(self@ == m.delete_blob_gc_post(blob.id));
        Ok(())
    }

    /// Records a started multipart upload; its time is `now`.
    pub fn create_multipart(&mut self, upload: &MultipartUpload, now: Timestamp) -> (r: Result<(), ErrorCode>)
        requires
            old(self)@.inv(),
        ensures
            final(self)@.inv(),
            match old(self)@.create_multipart_error(*upload) {
                Some(e) => r == Err::<(), ErrorCode>(e) && final(self)@ == old(self)@,
                None => r is Ok && final(self)@ == old(self)@.create_multipart_post(
                    MultipartUpload { uploaded_at: now, ..*upload },
                ),
            },
    {
        if self.find_upload(&upload.bucket, &upload.oid, &upload.upload_id).is_some() {
            return Err(ErrorCode::InternalError);
        }
        let row = MultipartUpload { uploaded_at: now, ..upload.duplicate() };
        assert(upload_key()(row) == upload_key()(*upload));
        proof {
            lemma_create_multipart_inv(self@, row);
        }
        self.uploads.push(row);
        Ok(())
    }

    /// The multipart upload of that bucket, key and upload id.
    pub fn get_multipart(&self, bucket: &str, oid: &str, upload_id: &str) -> (r: Option<MultipartUpload>)
        requires
            self@.inv(),
        ensures
            r == self@.upload_named(bucket@, oid@, upload_id@),
    {
        let b = bucket.to_owned();
        let o = oid.to_owned();
        let u = upload_id.to_owned();
        match self.find_upload(&b, &o, &u) {
            None => None,
            Some(i) => Some(self.uploads[i].duplicate()),
        }
    }

    /// The multipart uploads in progress in a bucket.
    pub fn list_multipart(&self, bucket: &str) -> (r: Vec<MultipartUpload>)
        requires
            self@.inv(),
        ensures
            r@ == self@.uploads.filter(|u: MultipartUpload| u.bucket@ == bucket@),
    {
        let ghost pred = |u: MultipartUpload| u.bucket@ == bucket@;
        let b = bucket.to_owned();
        let mut r: Vec<MultipartUpload> = Vec::new();
        let mut i: usize = 0;
        while i < self.uploads.len()
            invariant
                i <= self.uploads@.len(),
                b@ == bucket@,
                pred == (|u: MultipartUpload| u.bucket@ == bucket@),
                r@ == self.uploads@.take(i as int).filter(pred),
            decreases self.uploads@.len() - i,
        {
            proof {
                assert(self.uploads@.take(i + 1) =~= self.uploads@.take(i as int).push(self.uploads@[i as int]));
                self.uploads@.take(i as int).lemma_filter_push(self.uploads@[i as int], pred);
            }
            if self.uploads[i].bucket == b {
                r.push(self.uploads[i].duplicate());
            }
            i += 1;
        }
        assert(self.uploads@.take(self.uploads@.len() as int) == self.uploads@);
        r
    }

    /// Completes a multipart upload in one transaction: the blob becomes
    /// live, an object that refers to it replaces the live object of the same
    /// key (whose blob joins the collector's queue), and the upload's row goes.
    pub fn complete_multipart(&mut self, object: &Object, blob: &Blob, upload: &MultipartUpload, now: Timestamp) -> (r: Result<(Timestamp, Option<Blob>), ErrorCode>)
        requires
            old(self)@.inv(),
        ensures
            final(self)@.inv(),
            match old(self)@.complete_multipart_error(*object, *blob, *upload) {
                Some(e) => r == Err::<(Timestamp, Option<Blob>), ErrorCode>(e) && final(self)@ == old(self)@,
                None => r == Ok::<(Timestamp, Option<Blob>), ErrorCode>(
                    (
                        next_time(old(self)@.clock, now),
                        old(self)@.previous_blob(object.bucket_name@, object.oid@),
                    ),
                ) && final(self)@ == old(self)@.complete_multipart_post(*object, *blob, *upload, now),
            },
    {
        let u = match self.find_upload(&upload.bucket, &upload.oid, &upload.upload_id) {
            None => return Err(ErrorCode::NoSuchUpload),
            Some(u) => u,
        };
        if self.find_partition(&object.bucket_name).is_none() {
            return Err(ErrorCode::NoSuchBucket);
        }
        if self.find_blob(blob.id).is_some() {
            return Err(ErrorCode::InternalError);
        }
        let ghost m = self@;
        proof {
            lemma_complete_multipart_inv(m, *object, *blob, *upload, now);
        }
        let prev = self.replace_object(object, blob, now);
        self.uploads.remove(u);
        assert(self@ == m.complete_multipart_post(*object, *blob, *upload, now));
        Ok((self.clock, prev))
    }

    /// Drops a multipart upload.
    pub fn abort_multipart(&mut self, upload: &MultipartUpload) -> (r: Result<(), ErrorCode>)
        requires
            old(self)@.inv(),
        ensures
            final(self)@.inv(),
            match old(self)@.abort_multipart_error(*upload) {
                Some(e) => r == Err::<(), ErrorCode>(e) && final(self)@ == old(self)@,
                None => r is Ok && final(self)@ == old(self)@.abort_multipart_post(*upload),
            },
    {
        proof {
            lemma_abort_multipart_inv(self@, *upload);
        }
        match self.find_upload(&upload.bucket, &upload.oid, &upload.upload_id) {
            None => Err(ErrorCode::NoSuchUpload),
            Some(i) => {
                self.uploads.remove(i);
                Ok(())
            },
        }
    }

    /// The blobs that wait in the collector's queue.
    pub fn queued_blobs(&self) -> (r: Vec<Blob>)
        requires
            self@.inv(),
        ensures
            r@ == self@.blobs.filter(|b: Blob| self@.queued(b.id)),
    {
        let ghost pred = |b: Blob| self@.queued(b.id);
        let mut r: Vec<Blob> = Vec::new();
        let mut i: usize = 0;
        while i < self.blobs.len()
            invariant
                self@.inv(),
                i <= self.blobs@.len(),
                pred == (|b: Blob| self@.queued(b.id)),
                r@ == self.blobs@.take(i as int).filter(pred),
            decreases self.blobs@.len() - i,
        {
            proof {
                assert(self.blobs@.take(i + 1) =~= self.blobs@.take(i as int).push(self.blobs@[i as int]));
                self.blobs@.take(i as int).lemma_filter_push(self.blobs@[i as int], pred);
            }
            let id = self.blobs[i].id;
            let q = self.find_queued(id);
            proof {
                if q is Some {
                    let j = index_of_key(self@.blobs_gc, id_key(), id);
                    assert(self@.blobs_gc[j] == id);
                    assert(self@.blobs_gc.contains(id));
                } else {
                    if self@.blobs_gc.contains(id) {
                        let j = choose|j: int| 0 <= j < self@.blobs_gc.len() && self@.blobs_gc[j] == id;
                        assert(id_key()(self@.blobs_gc[j]) == id);
                    }
                }
            }
            if q.is_some() {
                r.push(self.blobs[i].duplicate());
            }
            i += 1;
        }
        assert(self.blobs@.take(self.blobs@.len() as int) == self.blobs@);
        r
    }

    /// The bucket jobs that wait for the collector.
    pub fn bucket_jobs(&self) -> (r: Vec<BucketGcJob>)
        ensures
            r@ == self@.buckets_gc,
    {
        let mut r: Vec<BucketGcJob> = Vec::new();
        let mut i: usize = 0;
        while i < self.buckets_gc.len()
            invariant
                i <= self.buckets_gc@.len(),
                r@ == self.buckets_gc@.take(i as int),
            decreases self.buckets_gc@.len() - i,
        {
            r.push(self.buckets_gc[i].duplicate());
            i += 1;
            assert(r@ =~= self.buckets_gc@.take(i as int));
        }
        assert(self.buckets_gc@.take(self.buckets_gc@.len() as int) == self.buckets_gc@);
        r
    }

    /// The temporary blobs older than `retention` at time `now`: their
    /// uploads were abandoned, and the collector removes them.
    pub fn expired_temp_blobs(&self, now: Timestamp, retention: i64) -> (r: Vec<TempBlob>)
        ensures
            r@ == self@.temp_blobs.filter(|t: TempBlob| expired(t, now, retention)),
            forall|t: TempBlob|
                self@.temp_blobs.contains(t) && expired(t, now, retention) ==> #[trigger] r@.contains(t),
    {
        let ghost pred = |t: TempBlob| expired(t, now, retention);
        let mut r: Vec<TempBlob> = Vec::new();
        let mut i: usize = 0;
        while i < self.temp_blobs.len()
            invariant
                i <= self.temp_blobs@.len(),
                pred == (|t: TempBlob| expired(t, now, retention)),
                r@ == self.temp_blobs@.take(i as int).filter(pred),
            decreases self.temp_blobs@.len() - i,
        {
            proof {
                assert(self.temp_blobs@.take(i + 1) =~= self.temp_blobs@.take(i as int).push(self.temp_blobs@[i as int]));
                self.temp_blobs@.take(i as int).lemma_filter_push(self.temp_blobs@[i as int], pred);
            }
            let age: i128 = now as i128 - self.temp_blobs[i].uploaded_at as i128;
            if age > retention as i128 {
                r.push(self.temp_blobs[i].duplicate());
            }
            i += 1;
        }
        assert(self.temp_blobs@.take(self.temp_blobs@.len() as int) == self.temp_blobs@);
        proof {
            assert forall|t: TempBlob|
                self@.temp_blobs.contains(t) && expired(t, now, retention) implies #[trigger] r@.contains(t) by {
                self@.temp_blobs.lemma_filter_contains_rev(pred, t);
            }
        }
        r
    }
}

/// A temporary blob recorded at `t.uploaded_at` is older than `retention` at `now`.
pub open spec fn expired(t: TempBlob, now: Timestamp, retention: i64) -> bool {
    now - t.uploaded_at > retention
}

/// An optional string's characters, or `dflt` where it is absent.
pub open spec fn text_or(o: Option<String>, dflt: Seq<char>) -> Seq<char> {
    match o {
        Some(s) => s@,
        None => dflt,
    }
}

pub open spec fn is_negative(max_keys: Option<i32>) -> bool {
    match max_keys {
        Some(n) => n < 0,
        None => false,
    }
}

/// The page size that a request asks for.
pub open spec fn page_size(max_keys: Option<i32>) -> nat {
    match max_keys {
        Some(n) => n as nat,
        None => DEFAULT_MAX_KEYS as nat,
    }
}

/// The number of keys of a page when the client names none.
pub const DEFAULT_MAX_KEYS: usize = 1000;

/// `res` presents the page `keys`: the common prefixes and the objects in
/// key order, each object with its blob, and the continuation marker.
pub open spec fn presents(
    res: ListResult,
    keys: Seq<Seq<char>>,
    m: StoreModel,
    bucket: Seq<char>,
    prefix: Seq<char>,
    delim: Seq<char>,
    max_keys: nat,
) -> bool {
    &&& res.common_prefixes@.map_values(|s: String| s@) == keys.filter(
        |k: Seq<char>| is_group_key(k, prefix, delim),
    )
    &&& res.objects@.map_values(|e: (Object, Option<Blob>)| e.0.oid@) == keys.filter(
        |k: Seq<char>| !is_group_key(k, prefix, delim),
    )
    &&& forall|i: int|
        0 <= i < res.objects@.len() ==> m.object_with_blob(bucket, (#[trigger] res.objects@[i]).0.oid@)
            == Some(res.objects@[i])
    &&& match res.marker {
        Some(s) => keys.len() == max_keys && max_keys > 0 && s@ == keys.last(),
        None => !(keys.len() == max_keys && max_keys > 0),
    }
    &&& res.version_marker is None
}

impl MetaStore {
    /// One page of the listing of a bucket, read from one consistent state
    /// of the store. The prefix defaults to none, the delimiter to `/`, the
    /// start key to none and the page size to 1000 keys; a negative page size
    /// is refused.
    pub fn list_objects(
        &self,
        bucket: &str,
        prefix: &Option<String>,
        delimiter: &Option<String>,
        start_after: &Option<String>,
        max_keys: Option<i32>,
    ) -> (r: Result<ListResult, ErrorCode>)
        requires
            self@.inv(),
        ensures
            is_negative(max_keys) ==> r == Err::<ListResult, ErrorCode>(ErrorCode::InvalidArgument),
            !is_negative(max_keys) ==> {
                let n = page_size(max_keys);
                let p = text_or(*prefix, Seq::empty());
                let d = text_or(*delimiter, seq!['/']);
                let s = text_or(*start_after, Seq::empty());
                r matches Ok(res) && exists|keys: Seq<Seq<char>>|
                    is_page(keys, self@.objects, bucket@, p, d, s, n) && presents(res, keys, self@, bucket@, p, d, n)
            },
    {
        let n: usize = match max_keys {
            Some(m) => {
                if m < 0 {
                    return Err(ErrorCode::InvalidArgument);
                }
                m as usize
            },
            None => DEFAULT_MAX_KEYS,
        };
        let p = match prefix {
            Some(x) => x.clone(),
            None => String::new(),
        };
        let d = match delimiter {
            Some(x) => x.clone(),
            None => {
                proof {
                    reveal_strlit("/");
                }
                let d = String::from_str("/");
                assert(d@ =~= seq!['/']);
                d
            },
        };
        let sa = match start_after {
            Some(x) => x.clone(),
            None => String::new(),
        };
        let ghost pg = |k: Seq<char>| is_group_key(k, p@, d@);
        let ghost po = |k: Seq<char>| !is_group_key(k, p@, d@);
        let page = list_page(&self.objects, bucket, p.as_str(), d.as_str(), sa.as_str(), n);
        let ghost keys = page_keys(page@);
        let mut prefixes: Vec<String> = Vec::new();
        let mut objects: Vec<(Object, Option<Blob>)> = Vec::new();
        let mut marker: Option<String> = None;
        let mut i: usize = 0;
        while i < page.len()
            invariant
                self@.inv(),
                i <= page@.len(),
                keys == page_keys(page@),
                pg == (|k: Seq<char>| is_group_key(k, p@, d@)),
                po == (|k: Seq<char>| !is_group_key(k, p@, d@)),
                forall|j: int| 0 <= j < page@.len() ==> row_ok(#[trigger] page@[j], self@.objects, bucket@, p@, d@, sa@),
                prefixes@.map_values(|s: String| s@) == keys.take(i as int).filter(pg),
                objects@.map_values(|e: (Object, Option<Blob>)| e.0.oid@) == keys.take(i as int).filter(po),
                forall|j: int|
                    0 <= j < objects@.len() ==> self@.object_with_blob(bucket@, (#[trigger] objects@[j]).0.oid@)
                        == Some(objects@[j]),
                marker matches Some(s) ==> i > 0 && s@ == keys[i - 1],
                i > 0 ==> marker is Some,
            decreases page@.len() - i,
        {
            let row = &page[i];
            let obj = &self.objects[row.index];
            let ghost k = keys[i as int];
            proof {
                assert(row_ok(page@[i as int], self@.objects, bucket@, p@, d@, sa@));
                lemma_group_key(obj.oid@, p@, d@);
                assert(keys.take(i + 1) =~= keys.take(i as int).push(k));
                keys.take(i as int).lemma_filter_push(k, pg);
                keys.take(i as int).lemma_filter_push(k, po);
            }
            match row.group_end {
                Some(e) => {
                    let g = obj.oid.as_str().substring_char(0, e).to_owned();
                    assert(g@ =~= obj.oid@.take(e as int));
                    let ghost before = prefixes@;
                    prefixes.push(g.clone());
                    assert(prefixes@.map_values(|s: String| s@) =~= before.map_values(|s: String| s@).push(g@));
                    marker = Some(g);
                },
                None => {
                    proof {
                        lemma_index_of_key(self@.objects, object_key(), row.index as int);
                    }
                    let blob = match obj.blob_id {
                        Some(id) => match self.find_blob(id) {
                            Some(j) => Some(self.blobs[j].duplicate()),
                            None => None,
                        },
                        None => None,
                    };
                    let ghost before = objects@;
                    objects.push((obj.duplicate(), blob));
                    assert(objects@.map_values(|e: (Object, Option<Blob>)| e.0.oid@) =~= before.map_values(
                        |e: (Object, Option<Blob>)| e.0.oid@,
                    ).push(obj.oid@));
                    marker = Some(obj.oid.clone());
                },
            }
            i += 1;
        }
        assert(keys.take(page@.len() as int) =~= keys);
        let marker = if page.len() == n && n > 0 {
            marker
        } else {
            None
        };
        proof {
            if page@.len() > 0 {
                assert(keys.last() == keys[page@.len() - 1]);
            }
        }
        let res = ListResult { objects, common_prefixes: prefixes, marker, version_marker: None };
        assert(n as nat == page_size(max_keys));
        assert(p@ == text_or(*prefix, Seq::empty()));
        assert(d@ == text_or(*delimiter, seq!['/']));
        assert(sa@ == text_or(*start_after, Seq::empty()));
        assert(is_page(keys, self@.objects, bucket@, p@, d@, sa@, n as nat));
        assert(res.common_prefixes@.map_values(|s: String| s@) == keys.filter(|k: Seq<char>| is_group_key(k, p@, d@)));
        assert(res.objects@.map_values(|e: (Object, Option<Blob>)| e.0.oid@) == keys.filter(|k: Seq<char>| !is_group_key(k, p@, d@)));
        assert(presents(res, keys, self@, bucket@, p@, d@, n as nat));
        Ok(res)
    }
}

impl MetaStore {
    /// Removes an empty bucket under a fresh job id for the garbage
    /// collector; see `delete_bucket_with_job`.
    pub fn delete_bucket(&mut self, name: &str, location: &BlobLocation) -> (r: Result<Uuid, ErrorCode>)
        requires
            old(self)@.inv(),
        ensures
            final(self)@.inv(),
            r matches Err(e) ==> final(self)@ == old(self)@ && exists|id: Uuid|
                old(self)@.delete_bucket_error(name@, id) == Some(e),
            r matches Ok(id) ==> old(self)@.delete_bucket_error(name@, id) is None && final(self)@
                == old(self)@.delete_bucket_post(name@, BucketGcJob { id, location: *location }),
            !old(self)@.has_partition(name@) ==> r == Err::<Uuid, ErrorCode>(ErrorCode::NoSuchBucket),
            old(self)@.has_partition(name@) && !old(self)@.bucket_is_empty(name@) ==> r == Err::<
                Uuid,
                ErrorCode,
            >(ErrorCode::BucketNotEmpty),
            old(self)@.has_partition(name@) && old(self)@.bucket_is_empty(name@) && old(self)@.buckets_gc.len()
                == 0 ==> r is Ok,
    {
        let id = new_uuid();
        self.delete_bucket_with_job(name, location, id)
    }
}

impl MetaStore {
    /// The latest timestamp that a transaction handed out.
    pub fn clock(&self) -> (r: Timestamp)
        ensures
            r == self@.clock,
    {
        self.clock
    }
}

/// `names[k]` is the name of bucket `idx[k]`, which belongs to `user`.
spec fn names_of_owner(names: Seq<Vec<char>>, idx: Seq<usize>, buckets: Seq<Bucket>, user: Seq<char>) -> bool {
    forall|k: int|
        0 <= k < idx.len() ==> idx[k] < buckets.len() && (#[trigger] names[k])@ == buckets[idx[k] as int].name@
            && buckets[idx[k] as int].owner@ == user
}

/// A strictly sorted page of names drawn from `names` is shorter than the
/// list while some name of the list is not on it.
proof fn lemma_page_fits(page: Seq<Bucket>, names: Seq<Vec<char>>, missing: Seq<char>)
    requires
        strictly_sorted(page.map_values(|b: Bucket| b.name@)),
        forall|i: int|
            #![trigger page[i]]
            0 <= i < page.len() ==> exists|k: int|
                #![trigger names[k]]
                0 <= k < names.len() && names[k]@ == page[i].name@,
        exists|k: int| 0 <= k < names.len() && (#[trigger] names[k])@ == missing,
        !page.map_values(|b: Bucket| b.name@).contains(missing),
    ensures
        page.len() < names.len(),
{
    let pn = page.map_values(|b: Bucket| b.name@);
    let f = |i: int| choose|k: int| 0 <= k < names.len() && (#[trigger] names[k])@ == pn[i];
    let km = choose|k: int| 0 <= k < names.len() && (#[trigger] names[k])@ == missing;
    // positions of the page's names in the list, and one more for the missing name
    let g = |i: int| if i < page.len() { f(i) } else { km };
    assert forall|i: int| 0 <= i < page.len() implies 0 <= #[trigger] f(i) < names.len() && names[f(i)]@ == pn[i] by {
        assert(pn[i] == page[i].name@);
    }
    assert forall|i: int| 0 <= i < page.len() + 1 implies 0 <= #[trigger] g(i) < names.len() by {
        if i < page.len() {
            assert(0 <= f(i) < names.len());
        }
    }
    assert forall|i: int, j: int| 0 <= i < j < page.len() + 1 implies #[trigger] g(i) != #[trigger] g(j) by {
        if j < page.len() {
            assert(lex_lt(pn[i], pn[j]));
            lemma_lex_irreflexive(pn[i]);
        } else {
            assert(pn.contains(pn[i]));
        }
    }
    lemma_injective_bound(g, (page.len() + 1) as int, names.len() as int);
}

/// An injection from `0..n` into `0..m` needs `n <= m`.
proof fn lemma_injective_bound(g: spec_fn(int) -> int, n: int, m: int)
    requires
        0 <= n,
        0 <= m,
        forall|i: int| 0 <= i < n ==> 0 <= #[trigger] g(i) < m,
        forall|i: int, j: int| 0 <= i < j < n ==> #[trigger] g(i) != #[trigger] g(j),
    ensures
        n <= m,
    decreases n,
{
    if n > 0 {
        let top = g(n - 1);
        // move the image of the last element out of the way
        let h = |i: int| if g(i) == m - 1 { top } else { g(i) };
        assert forall|i: int| 0 <= i < n - 1 implies 0 <= #[trigger] h(i) < m - 1 by {
            if g(i) == m - 1 {
                assert(g(i) != g(n - 1));
            }
        }
        assert forall|i: int, j: int| 0 <= i < j < n - 1 implies #[trigger] h(i) != #[trigger] h(j) by {
            assert(g(i) != g(j));
            if g(i) == m - 1 {
                assert(g(j) != g(n - 1));
            }
            if g(j) == m - 1 {
                assert(g(i) != g(n - 1));
            }
        }
        if m == 0 {
            assert(0 <= g(0) < m);
        } else {
            lemma_injective_bound(h, n - 1, m - 1);
        }
    }
}

impl MetaStore {
    /// The table of a bucket's partition of the objects table, if it has one.
    pub fn partition_table(&self, bucket: &str) -> (r: Option<String>)
        requires
            self@.inv(),
        ensures
            match row_with_key(self@.partitions, partition_key(), bucket@) {
                Some(p) => r matches Some(t) && t@ == p.table@ && t@ == partition_name_of(bucket@),
                None => r is None,
            },
    {
        let b = bucket.to_owned();
        match self.find_partition(&b) {
            Some(i) => {
                assert(self@.partitions.contains(self@.partitions[i as int]));
                Some(self.partitions[i].table.clone())
            },
            None => None,
        }
    }
}

} // verus!
