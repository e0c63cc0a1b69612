//! Capabilities of a blob back-end.
use vstd::prelude::*;

verus! {

/// Manager of the blob back-ends that a gateway can place buckets on.
pub trait BlobStoreManager {
}

} // verus!
