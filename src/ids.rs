//! Identifiers: fresh UUIDs and their text form.
use vstd::prelude::*;
use crate::meta_store::Uuid;

verus! {

/// The lower-case hexadecimal digit of `d`, for `d < 16`.
pub open spec fn hex_digit(d: u128) -> char {
    seq!['0', '1', '2', '3', '4', '5', '6', '7', '8', '9', 'a', 'b', 'c', 'd', 'e', 'f'][d as int]
}

/// The `k`-th of the 32 hexadecimal digits of `id`, most significant first.
pub open spec fn nibble(id: u128, k: int) -> u128 {
    (id >> ((124 - 4 * k) as u128)) & 15u128
}

/// The number of hyphens that precede position `p` of the text form.
pub open spec fn hyphens_before(p: int) -> int {
    if p < 8 {
        0
    } else if p < 13 {
        1
    } else if p < 18 {
        2
    } else if p < 23 {
        3
    } else {
        4
    }
}

/// The hyphenated lower-case text form of a UUID, as in
/// `67e55044-10b1-426f-9247-bb680e5fe0c8`.
pub open spec fn uuid_text(id: Uuid) -> Seq<char> {
    Seq::new(
        36,
        |p: int|
            if p == 8 || p == 13 || p == 18 || p == 23 {
                '-'
            } else {
                hex_digit(nibble(id, p - hyphens_before(p)))
            },
    )
}

/// Relies on `uuid::Uuid::new_v4`: a random UUID whose version field is 4
/// and whose variant bits are `10`; its other bits are random.
#[verifier::external_body]
pub(crate) fn new_uuid() -> (r: Uuid)
    ensures
        (r >> 76u128) & 15u128 == 4,
        (r >> 62u128) & 3u128 == 2,
{
    uuid::Uuid::new_v4().as_u128()
}

/// Relies on `uuid::Uuid::from_u128` and the `Display` of `uuid::Uuid`, which
/// writes the hyphenated lower-case form of the UUID's big-endian bytes.
#[verifier::external_body]
pub(crate) fn uuid_to_string(id: Uuid) -> (r: String)
    ensures
        r@ == uuid_text(id),
{
    uuid::Uuid::from_u128(id).to_string()
}

/// The key under which blob `id` is stored in its backing bucket.
pub fn blob_key_text(id: Uuid) -> (r: String)
    ensures
        r@ == uuid_text(id),
{
    uuid_to_string(id)
}

} // verus!
