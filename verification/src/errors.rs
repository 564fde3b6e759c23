use vstd::prelude::*;

verus! {

/// Why a decode of the source arrays failed as a whole. Partial results are
/// never handed out: a failed decode yields this and nothing else.
#[derive(Clone, Copy, PartialEq, Eq, Structural, Debug)]
pub enum DecodeError {
    /// The chunk size was zero, which partitions nothing.
    InvalidChunkSize,
    /// The latitude or longitude array does not match the moisture array's
    /// length.
    LengthMismatch,
}

/// The error taxonomy of the service, as it crosses the request boundary.
#[derive(Clone, Copy, PartialEq, Eq, Structural, Debug)]
pub enum ApiError {
    /// Bad query parameters; the caller can fix these.
    InvalidInput,
    /// The caller's admission quota is exhausted; transient, retry later.
    RateLimitExceeded,
    /// The source file could not be fetched or staged.
    Ingestion,
    /// The source arrays could not be decoded.
    Decode(DecodeError),
    /// The relational store failed; detail stays out of responses.
    Storage,
    /// The secure-update check failed.
    Update,
}

/// The HTTP status that each error maps to at the boundary.
pub open spec fn status_code_spec(e: ApiError) -> u16 {
    match e {
        ApiError::InvalidInput => 400,
        ApiError::RateLimitExceeded => 429,
        ApiError::Ingestion => 500,
        ApiError::Decode(_) => 500,
        ApiError::Storage => 500,
        ApiError::Update => 500,
    }
}

impl ApiError {
    pub fn status_code(&self) -> (r: u16)
        ensures
            r == status_code_spec(*self),
    {
        match self {
            ApiError::InvalidInput => 400,
            ApiError::RateLimitExceeded => 429,
            ApiError::Ingestion => 500,
            ApiError::Decode(_) => 500,
            ApiError::Storage => 500,
            ApiError::Update => 500,
        }
    }
}

} // verus!
