//! Names derived from bucket names: partitions of the objects table and
//! buckets of the backing store.
use vstd::prelude::*;
use crate::ids::{new_uuid, uuid_text, uuid_to_string};
use crate::meta_store::{BlobLocation, Uuid};

verus! {

/// A character that may stand in an unquoted SQL identifier.
pub open spec fn is_ident_char(c: char) -> bool {
    ('a' <= c && c <= 'z') || ('A' <= c && c <= 'Z') || ('0' <= c && c <= '9') || c == '_'
}

pub open spec fn ident_of(c: char) -> char {
    if is_ident_char(c) {
        c
    } else {
        '_'
    }
}

pub open spec fn partition_prefix() -> Seq<char> {
    seq!['o', 'b', 'j', 'e', 'c', 't', 's', '_', 'b', 'u', 'c', 'k', 'e', 't', '_']
}

/// The partition name of a bucket: a fixed prefix, then the bucket name with
/// every character that cannot stand in an identifier replaced by `_`.
pub open spec fn partition_name_of(bucket: Seq<char>) -> Seq<char> {
    partition_prefix() + bucket.map_values(|c: char| ident_of(c))
}

fn is_ident(c: char) -> (r: bool)
    ensures
        r == is_ident_char(c),
{
    ('a' <= c && c <= 'z') || ('A' <= c && c <= 'Z') || ('0' <= c && c <= '9') || c == '_'
}

/// The name of the partition of the objects table that holds a bucket's objects.
pub fn partition_name(bucket: &str) -> (r: String)
    ensures
        r@ == partition_name_of(bucket@),
{
    let mut r = String::from_str("objects_bucket_");
    proof {
        reveal_strlit("objects_bucket_");
        reveal_strlit("_");
        assert("objects_bucket_"@ =~= partition_prefix());
    }
    let n = bucket.unicode_len();
    let mut i: usize = 0;
    while i < n
        invariant
            n == bucket@.len(),
            i <= n,
            r@ == partition_prefix() + bucket@.take(i as int).map_values(|c: char| ident_of(c)),
        decreases n - i,
    {
        let c = bucket.get_char(i);
        let ghost before = r@;
        if is_ident(c) {
            let piece = bucket.substring_char(i, i + 1);
            assert(piece@ =~= seq![ident_of(c)]);
            r.append(piece);
        } else {
            proof {
                reveal_strlit("_");
            }
            assert("_"@ =~= seq![ident_of(c)]);
            r.append("_");
        }
        assert(r@ =~= before.push(ident_of(c)));
        proof {
            assert(bucket@.take(i + 1).map_values(|c: char| ident_of(c)) =~= bucket@.take(
                i as int,
            ).map_values(|c: char| ident_of(c)).push(ident_of(c)));
        }
        i += 1;
        assert(r@ =~= partition_prefix() + bucket@.take(i as int).map_values(|c: char| ident_of(c)));
    }
    assert(bucket@.take(n as int) =~= bucket@);
    r
}

/// The backing bucket of a gateway bucket in multi-tenant mode: the bucket's
/// name, a hyphen, and a UUID.
pub open spec fn backend_name_of(bucket: Seq<char>, id: Uuid) -> Seq<char> {
    bucket + seq!['-'] + uuid_text(id)
}

/// Where a new bucket's blobs go: into `static_bucket` where one is
/// configured, else into a backing bucket of its own named after `id`.
pub fn location_for(static_bucket: &Option<String>, region: &str, bucket: &str, id: Uuid) -> (r: BlobLocation)
    ensures
        r.region@ == region@,
        r.backend@ == match static_bucket {
            Some(b) => b@,
            None => backend_name_of(bucket@, id),
        },
{
    let backend = match static_bucket {
        Some(b) => b.clone(),
        None => {
            let mut s = bucket.to_owned();
            s.append("-");
            let t = uuid_to_string(id);
            s.append(t.as_str());
            proof {
                reveal_strlit("-");
                assert(s@ =~= backend_name_of(bucket@, id));
            }
            s
        },
    };
    BlobLocation { region: region.to_owned(), backend }
}

/// Chooses the location of a new bucket, drawing a fresh UUID for its
/// backing bucket where no static bucket is configured.
pub fn get_location(static_bucket: &Option<String>, region: &str, bucket: &str) -> (r: BlobLocation)
    ensures
        r.region@ == region@,
        static_bucket matches Some(b) ==> r.backend@ == b@,
        static_bucket is None ==> exists|id: Uuid| r.backend@ == backend_name_of(bucket@, id),
{
    let id = new_uuid();
    location_for(static_bucket, region, bucket, id)
}

/// The region that a bucket is created in when the client names none.
pub fn default_region() -> (r: String)
    ensures
        r@ == seq!['d', 'e', 'f', 'a', 'u', 'l', 't'],
{
    proof {
        reveal_strlit("default");
    }
    let r = String::from_str("default");
    assert(r@ =~= seq!['d', 'e', 'f', 'a', 'u', 'l', 't']);
    r
}

/// The region of a new bucket: the client's location constraint, else the
/// gateway's default region.
pub fn choose_region(constraint: &Option<String>, default: &str) -> (r: String)
    ensures
        r@ == match constraint {
            Some(c) => c@,
            None => default@,
        },
{
    match constraint {
        Some(c) => c.clone(),
        None => default.to_owned(),
    }
}

} // verus!
