//! A limiter with one quota for every key.
use vstd::prelude::*;

use crate::backend::RateLimitBackend;
use crate::metrics::RateLimitResult;
use crate::quota::Quota;

verus! {

/// Core rate limiter that delegates to a [`RateLimitBackend`].
pub struct RateLimiter<B: RateLimitBackend> {
    quota: Quota,
    backend: B,
}

impl<B: RateLimitBackend> RateLimiter<B> {
    /// The quota of every key.
    pub closed spec fn quota(&self) -> Quota {
        self.quota
    }

    /// The backend that keeps the state of the keys.
    pub closed spec fn backend(&self) -> B {
        self.backend
    }

    /// What a check of `key` does to a limiter, and its result.
    pub open spec fn checked(
        before: Self,
        key: Seq<char>,
        after: Self,
        r: RateLimitResult,
    ) -> bool {
        &&& after.quota() == before.quota()
        &&& B::checked(before.backend(), key, before.quota(), after.backend(), r)
    }

    /// A limiter with the given quota and backend.
    pub fn new(quota: Quota, backend: B) -> (r: Self)
        ensures
            r.quota() == quota,
            r.backend() == backend,
    {
        RateLimiter { quota, backend }
    }

    /// Checks whether the caller identified by `key` is allowed to proceed.
    pub fn check(&mut self, key: &str) -> (r: RateLimitResult)
        requires
            B::accepts(old(self).quota()),
        ensures
            Self::checked(*old(self), key@, *final(self), r),
    {
        self.backend.check(key, &self.quota)
    }

    /// The check for synchronous callers.
    pub fn check_sync(&mut self, key: &str) -> (r: RateLimitResult)
        requires
            B::accepts(old(self).quota()),
        ensures
            Self::checked(*old(self), key@, *final(self), r),
    {
        self.check(key)
    }
}

} // verus!
