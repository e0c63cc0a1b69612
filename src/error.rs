use vstd::prelude::*;

verus! {

/// The error codes that the gateway shows to its clients.
#[derive(Debug, Clone, Copy, PartialEq, Eq, Structural)]
pub enum ErrorCode {
    AccessDenied,
    NoSuchBucket,
    NoSuchKey,
    NoSuchUpload,
    BucketAlreadyExists,
    BucketNotEmpty,
    InvalidStorageClass,
    IncompleteBody,
    InvalidArgument,
    NotImplemented,
    InternalError,
}

/// The code as the S3 protocol spells it.
pub open spec fn code_name(c: ErrorCode) -> Seq<char> {
    match c {
        ErrorCode::AccessDenied => "AccessDenied"@,
        ErrorCode::NoSuchBucket => "NoSuchBucket"@,
        ErrorCode::NoSuchKey => "NoSuchKey"@,
        ErrorCode::NoSuchUpload => "NoSuchUpload"@,
        ErrorCode::BucketAlreadyExists => "BucketAlreadyExists"@,
        ErrorCode::BucketNotEmpty => "BucketNotEmpty"@,
        ErrorCode::InvalidStorageClass => "InvalidStorageClass"@,
        ErrorCode::IncompleteBody => "IncompleteBody"@,
        ErrorCode::InvalidArgument => "InvalidArgument"@,
        ErrorCode::NotImplemented => "NotImplemented"@,
        ErrorCode::InternalError => "InternalError"@,
    }
}

impl ErrorCode {
    /// The code as the S3 protocol spells it.
    pub fn as_str(&self) -> (r: &'static str)
        ensures
            r@ == code_name(*self),
    {
        match self {
            ErrorCode::AccessDenied => "AccessDenied",
            ErrorCode::NoSuchBucket => "NoSuchBucket",
            ErrorCode::NoSuchKey => "NoSuchKey",
            ErrorCode::NoSuchUpload => "NoSuchUpload",
            ErrorCode::BucketAlreadyExists => "BucketAlreadyExists",
            ErrorCode::BucketNotEmpty => "BucketNotEmpty",
            ErrorCode::InvalidStorageClass => "InvalidStorageClass",
            ErrorCode::IncompleteBody => "IncompleteBody",
            ErrorCode::InvalidArgument => "InvalidArgument",
            ErrorCode::NotImplemented => "NotImplemented",
            ErrorCode::InternalError => "InternalError",
        }
    }
}

} // verus!
