//! Errors of the rate limiter.
use vstd::prelude::*;

verus! {

/// Errors returned by the rate limiter.
#[derive(Debug)]
pub enum RateLimitError {
    /// The request was rejected: rate limit exceeded.
    RateLimited,
    /// A failure of the storage behind a backend.
    BackendError(String),
}

impl RateLimitError {
    /// The message of the error.
    pub fn to_string(&self) -> (r: String)
        ensures
            r@ == match self {
                RateLimitError::RateLimited => "rate limit exceeded"@,
                RateLimitError::BackendError(cause) => "rate limit backend error: "@ + cause@,
            },
    {
        match self {
            RateLimitError::RateLimited => "rate limit exceeded".to_owned(),
            RateLimitError::BackendError(cause) => {
                let mut message: String = "rate limit backend error: ".to_owned();
                message.append(cause.as_str());
                message
            },
        }
    }
}

} // verus!
