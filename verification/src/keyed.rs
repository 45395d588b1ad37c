//! A limiter with quotas of their own for some keys.
use dashmap::DashMap;
use vstd::prelude::*;

use crate::backend::RateLimitBackend;
use crate::metrics::RateLimitResult;
use crate::quota::Quota;
use crate::table;

verus! {

/// Per-key rate limiter: each key has its own budget, under a quota of its own
/// where one was set, and under the default quota where none was.
///
/// Only the overrides are stored. A key under the default quota leaves nothing
/// behind here, however many such keys are checked.
pub struct KeyedRateLimiter<B: RateLimitBackend> {
    overrides: DashMap<String, Quota>,
    default_quota: Quota,
    backend: B,
}

impl<B: RateLimitBackend> KeyedRateLimiter<B> {
    /// The quotas that were set for single keys.
    pub closed spec fn overrides(&self) -> Map<Seq<char>, Quota> {
        table::key_quotas(self.overrides)
    }

    /// The quota of every other key.
    pub closed spec fn default_quota(&self) -> Quota {
        self.default_quota
    }

    /// The backend that keeps the state of the keys.
    pub closed spec fn backend(&self) -> B {
        self.backend
    }

    /// The quota that counts for a key.
    pub open spec fn quota_of(&self, key: Seq<char>) -> Quota {
        if self.overrides().contains_key(key) {
            self.overrides()[key]
        } else {
            self.default_quota()
        }
    }

    /// What a check of `key` does to a limiter, and its result.
    pub open spec fn checked(
        before: Self,
        key: Seq<char>,
        after: Self,
        r: RateLimitResult,
    ) -> bool {
        &&& after.overrides() == before.overrides()
        &&& after.default_quota() == before.default_quota()
        &&& B::checked(before.backend(), key, before.quota_of(key), after.backend(), r)
    }

    /// A limiter with the given default quota and backend, and no overrides.
    pub fn new(default_quota: Quota, backend: B) -> (r: Self)
        ensures
            r.overrides() == Map::<Seq<char>, Quota>::empty(),
            r.default_quota() == default_quota,
            r.backend() == backend,
    {
        KeyedRateLimiter { overrides: table::new_key_quotas(), default_quota, backend }
    }

    /// Overrides the quota of one key. This replaces an earlier override; every
    /// other key keeps its quota, and the state of the keys is left as it is.
    pub fn with_quota_for_key(&mut self, key: &str, quota: Quota)
        ensures
            final(self).overrides() == old(self).overrides().insert(key@, quota),
            final(self).default_quota() == old(self).default_quota(),
            final(self).backend() == old(self).backend(),
            final(self).quota_of(key@) == quota,
            forall|other: Seq<char>|
                other != key@ ==> #[trigger] final(self).quota_of(other) == old(self).quota_of(
                    other,
                ),
    {
        table::put_quota(&mut self.overrides, key.to_owned(), quota);
    }

    /// The quota that counts for a key.
    pub fn quota_for(&self, key: &str) -> (r: Quota)
        ensures
            r == self.quota_of(key@),
    {
        match table::get_quota(&self.overrides, key) {
            Some(own) => own,
            None => self.default_quota,
        }
    }

    /// Checks whether the caller identified by `key` is allowed to proceed.
    pub fn check(&mut self, key: &str) -> (r: RateLimitResult)
        requires
            B::accepts(old(self).quota_of(key@)),
        ensures
            Self::checked(*old(self), key@, *final(self), r),
    {
        let quota: Quota = self.quota_for(key);
        self.backend.check(key, &quota)
    }

    /// The check for synchronous callers.
    pub fn check_sync(&mut self, key: &str) -> (r: RateLimitResult)
        requires
            B::accepts(old(self).quota_of(key@)),
        ensures
            Self::checked(*old(self), key@, *final(self), r),
    {
        self.check(key)
    }
}

} // verus!
