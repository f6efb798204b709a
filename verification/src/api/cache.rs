//! A single-value cache with a time to live, for the slow Docker inventory
//! calls: a fresh value is served from memory; a stale or missing one is
//! refreshed by the caller and stored. Times are milliseconds on a
//! monotonic clock.

use vstd::prelude::*;

verus! {

/// Time passed from `at` to `now`, nothing when `now` comes first.
pub open spec fn elapsed(at: u64, now: u64) -> nat {
    if now >= at {
        (now - at) as nat
    } else {
        0
    }
}

/// One cached value and when it was stored.
pub struct TtlSlot<T> {
    pub ttl_ms: u64,
    pub slot: Option<(u64, T)>,
}

impl<T> TtlSlot<T> {
    /// An empty cache whose values live `ttl_ms`.
    pub fn new(ttl_ms: u64) -> (c: Self)
        ensures
            c.ttl_ms == ttl_ms,
            c.slot is None,
    {
        TtlSlot { ttl_ms, slot: None }
    }

    /// The cached value when it is still fresh at `now` (stored less than
    /// the time to live ago); `None` means the caller refreshes it.
    pub fn fresh(&self, now: u64) -> (r: Option<&T>)
        ensures
            match self.slot {
                Some((at, v)) => if elapsed(at, now) < self.ttl_ms {
                    r == Some(&v)
                } else {
                    r is None
                },
                None => r is None,
            },
    {
        match &self.slot {
            Some((at, v)) => {
                let age = if now >= *at { now - *at } else { 0 };
                if age < self.ttl_ms {
                    Some(v)
                } else {
                    None
                }
            },
            None => None,
        }
    }

    /// Stores a refreshed value, taken at `now`. A failed refresh stores
    /// nothing, so the stale value stays.
    pub fn store(&mut self, now: u64, v: T)
        ensures
            final(self).ttl_ms == old(self).ttl_ms,
            final(self).slot == Some((now, v)),
    {
        self.slot = Some((now, v));
    }

    /// Settles a refresh made at `now`: a refreshed value is stored (as a
    /// clone) and handed back; a failed refresh hands its error back and
    /// leaves the cache as it was, any stale value included.
    pub fn refreshed<E>(&mut self, now: u64, outcome: Result<T, E>) -> (r: Result<T, E>)
        where
            T: Clone,
        ensures
            final(self).ttl_ms == old(self).ttl_ms,
            r == outcome,
            outcome matches Ok(v) ==> (final(self).slot matches Some((at, c)) && at == now
                && vstd::pervasive::cloned(v, c)),
            outcome is Err ==> final(self).slot == old(self).slot,
    {
        match outcome {
            Ok(v) => {
                let c = v.clone();
                self.slot = Some((now, c));
                Ok(v)
            },
            Err(e) => Err(e),
        }
    }

    /// Drops the cached value, so that the next read refreshes it.
    pub fn invalidate(&mut self)
        ensures
            final(self).ttl_ms == old(self).ttl_ms,
            final(self).slot is None,
    {
        self.slot = None;
    }
}

} // verus!
