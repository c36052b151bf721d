//! Caching native price estimator.
//!
//! Wraps a price estimating backend and memoises its answers for a bounded
//! time. Successful estimates and terminal errors are cached, transient
//! errors are not. A maintenance pass refreshes soon-to-expire entries,
//! high-priority and recently requested tokens first.
//!
//! Instants are milliseconds of a monotonic clock, passed in by the
//! caller; prices are opaque machine words chosen by the backend.

use vstd::prelude::*;
use crate::order::Address;

verus! {

/// Why a price estimate failed.
#[derive(Clone, Copy, Debug, PartialEq, Eq, Structural)]
pub enum PriceEstimationError {
    /// No liquidity for the token: terminal, cached.
    NoLiquidity,
    /// The token is not supported: terminal, cached.
    UnsupportedToken,
    /// Unexpected here; treated as transient and never cached.
    UnsupportedOrderType,
    /// The backend is rate limited: transient, never cached.
    RateLimited,
    /// An estimator-side failure: transient, never cached.
    EstimatorInternal,
    /// A protocol-side failure: transient, never cached.
    ProtocolInternal,
}

/// The outcome of one estimate: the price as an opaque machine word, or
/// the error kind.
pub type CacheEntry = Result<u64, PriceEstimationError>;

/// A cached estimate with the instants it was last updated and requested.
#[derive(Clone, Copy, Debug, PartialEq, Eq)]
pub struct CachedResult {
    pub result: CacheEntry,
    pub updated_at: u64,
    pub requested_at: u64,
}

/// A native price estimating backend. Implementations live outside the
/// crate; the cache states what holds of its own behaviour whatever an
/// implementation returns.
pub trait NativePriceEstimating {
    fn estimate_native_price(&mut self, token: Address) -> CacheEntry;
}

/// Results worth caching: successes and terminal errors. Transient errors
/// must be retried and are never cached.
pub open spec fn should_cache_spec(result: CacheEntry) -> bool {
    match result {
        Ok(_) => true,
        Err(PriceEstimationError::NoLiquidity) => true,
        Err(PriceEstimationError::UnsupportedToken) => true,
        Err(_) => false,
    }
}

/// Whether a result is cached: successes and the terminal errors are,
/// transient errors are not.
pub fn should_cache(result: &CacheEntry) -> (r: bool)
    ensures
        r == should_cache_spec(*result),
{
    match result {
        Ok(_) => true,
        Err(PriceEstimationError::NoLiquidity) => true,
        Err(PriceEstimationError::UnsupportedToken) => true,
        Err(PriceEstimationError::UnsupportedOrderType) => false,
        Err(PriceEstimationError::RateLimited) => false,
        Err(PriceEstimationError::EstimatorInternal) => false,
        Err(PriceEstimationError::ProtocolInternal) => false,
    }
}

/// `a - b`, floored at zero.
pub open spec fn sat_sub(a: u64, b: u64) -> int {
    if a >= b {
        a - b
    } else {
        0
    }
}

/// An entry is fresh while its age stays strictly below `max_age`.
pub open spec fn is_fresh(c: CachedResult, now: u64, max_age: u64) -> bool {
    sat_sub(now, c.updated_at) < max_age
}

/// The entry cached for a token: the first pair carrying it.
pub open spec fn cached_for(cache: Seq<(Address, CachedResult)>, token: Address) -> Option<
    CachedResult,
>
    decreases cache.len(),
{
    if cache.len() == 0 {
        None
    } else if cache[0].0 == token {
        Some(cache[0].1)
    } else {
        cached_for(cache.drop_first(), token)
    }
}

/// The cache with the token's entry marked as requested at `now`.
pub open spec fn bump_requested(
    cache: Seq<(Address, CachedResult)>,
    token: Address,
    now: u64,
) -> Seq<(Address, CachedResult)> {
    cache.map_values(
        |p: (Address, CachedResult)|
            if p.0 == token {
                (p.0, CachedResult { requested_at: now, ..p.1 })
            } else {
                p
            },
    )
}

/// The cache with the token's entry replaced.
pub open spec fn set_entry(
    cache: Seq<(Address, CachedResult)>,
    token: Address,
    c: CachedResult,
) -> Seq<(Address, CachedResult)> {
    cache.map_values(|p: (Address, CachedResult)| if p.0 == token { (p.0, c) } else { p })
}

/// The already-outdated entry a cache miss leaves behind, so the
/// maintenance pass fetches the price during its next cycle.
pub open spec fn sentinel_entry(now: u64, max_age: u64) -> CachedResult {
    CachedResult { result: Ok(0), updated_at: (now - max_age) as u64, requested_at: now }
}

proof fn lemma_cached_for_index(cache: Seq<(Address, CachedResult)>, token: Address, i: int)
    requires
        0 <= i < cache.len(),
        cache[i].0 == token,
        forall|k: int| 0 <= k < i ==> (#[trigger] cache[k]).0 != token,
    ensures
        cached_for(cache, token) == Some(cache[i].1),
    decreases i,
{
    if i > 0 {
        lemma_cached_for_index(cache.drop_first(), token, i - 1);
    }
}

proof fn lemma_cached_for_none(cache: Seq<(Address, CachedResult)>, token: Address)
    requires
        forall|k: int| 0 <= k < cache.len() ==> (#[trigger] cache[k]).0 != token,
    ensures
        cached_for(cache, token) is None,
    decreases cache.len(),
{
    if cache.len() > 0 {
        lemma_cached_for_none(cache.drop_first(), token);
    }
}

/// How one lookup-or-refresh step for a token relates the cache before to
/// the cache after and the step's result, given the freshness bound in
/// effect. A fresh entry is served as cached; otherwise the result is
/// whatever the backend returned, and it is cached exactly when it is
/// worth caching.
pub open spec fn refresh_rel(
    pre: Seq<(Address, CachedResult)>,
    token: Address,
    now: u64,
    max_age: u64,
    post: Seq<(Address, CachedResult)>,
    result: CacheEntry,
) -> bool {
    match cached_for(pre, token) {
        Some(c) => {
            if is_fresh(c, now, max_age) {
                &&& result == c.result
                &&& post == bump_requested(pre, token, now)
            } else {
                if should_cache_spec(result) {
                    post == set_entry(
                        pre,
                        token,
                        CachedResult { result, updated_at: now, requested_at: now },
                    )
                } else {
                    post == bump_requested(pre, token, now)
                }
            }
        },
        None => {
            if should_cache_spec(result) {
                post == pre.push(
                    (token, CachedResult { result, updated_at: now, requested_at: now }),
                )
            } else {
                post == pre
            }
        },
    }
}

/// Memoises native price estimates of a backend for `max_age` instants.
/// The maintenance data (`update_interval`, `update_size`,
/// `prefetch_time`, `concurrent_requests`) describes the background pass
/// the owner is expected to run.
pub struct CachingNativePriceEstimator<E> {
    pub estimator: E,
    /// One entry per token; tokens are distinct.
    pub cache: Vec<(Address, CachedResult)>,
    /// Tokens refreshed before all others by the maintenance pass.
    pub high_priority: Vec<Address>,
    pub max_age: u64,
    pub update_interval: u64,
    pub update_size: Option<usize>,
    pub prefetch_time: u64,
    pub concurrent_requests: usize,
}

impl<E> CachingNativePriceEstimator<E> {
    /// Every token holds at most one entry.
    pub open spec fn wf(self) -> bool {
        forall|i: int, j: int|
            0 <= i < j < self.cache@.len() ==> (#[trigger] self.cache@[i]).0 != (
            #[trigger] self.cache@[j]).0
    }

    /// Everything but the cache contents and the backend state is as it
    /// was.
    pub open spec fn same_settings(self, other: Self) -> bool {
        &&& self.high_priority@ == other.high_priority@
        &&& self.max_age == other.max_age
        &&& self.update_interval == other.update_interval
        &&& self.update_size == other.update_size
        &&& self.prefetch_time == other.prefetch_time
        &&& self.concurrent_requests == other.concurrent_requests
    }
}

impl<E: NativePriceEstimating> CachingNativePriceEstimator<E> {
    /// A fresh cache around `estimator`, whose successful answers stay
    /// valid for `max_age` instants. The owner is expected to run one
    /// maintenance pass per `update_interval`; each pass refreshes at most
    /// `update_size` entries (all outdated ones when `None`), treats
    /// entries as expiring `prefetch_time` early, and may issue up to
    /// `concurrent_requests` backend requests at a time.
    pub fn new(
        estimator: E,
        max_age: u64,
        update_interval: u64,
        update_size: Option<usize>,
        prefetch_time: u64,
        concurrent_requests: usize,
    ) -> (r: Self)
        ensures
            r.estimator == estimator,
            r.cache@.len() == 0,
            r.high_priority@.len() == 0,
            r.max_age == max_age,
            r.update_interval == update_interval,
            r.update_size == update_size,
            r.prefetch_time == prefetch_time,
            r.concurrent_requests == concurrent_requests,
            r.wf(),
    {
        CachingNativePriceEstimator {
            estimator,
            cache: Vec::new(),
            high_priority: Vec::new(),
            max_age,
            update_interval,
            update_size,
            prefetch_time,
            concurrent_requests,
        }
    }

    /// Atomically replaces the set of high-priority tokens.
    pub fn replace_high_priority(&mut self, tokens: Vec<Address>)
        requires
            old(self).wf(),
        ensures
            final(self).high_priority@ == tokens@,
            final(self).cache@ == old(self).cache@,
            final(self).estimator == old(self).estimator,
            final(self).max_age == old(self).max_age,
            final(self).update_interval == old(self).update_interval,
            final(self).update_size == old(self).update_size,
            final(self).prefetch_time == old(self).prefetch_time,
            final(self).concurrent_requests == old(self).concurrent_requests,
            final(self).wf(),
    {
        self.high_priority = tokens;
    }

    /// Returns the single cached price of a token and marks the entry as
    /// requested at `now`. A missing entry is reported as `None`; with
    /// `create_missing_entry` it leaves an already-outdated entry behind
    /// so the maintenance pass will fetch the price soon.
    fn get_cached_price(
        &mut self,
        token: Address,
        now: u64,
        max_age: u64,
        create_missing_entry: bool,
    ) -> (r: Option<CacheEntry>)
        requires
            old(self).wf(),
            create_missing_entry ==> max_age <= now,
        ensures
            final(self).wf(),
            final(self).same_settings(*old(self)),
            final(self).estimator == old(self).estimator,
            match cached_for(old(self).cache@, token) {
                Some(c) => final(self).cache@ == bump_requested(old(self).cache@, token, now) && r
                    == if is_fresh(c, now, max_age) {
                    Some(c.result)
                } else {
                    None
                },
                None => r is None && final(self).cache@ == if create_missing_entry {
                    old(self).cache@.push((token, sentinel_entry(now, max_age)))
                } else {
                    old(self).cache@
                },
            },
    {
        let ghost pre = self.cache@;
        let n = self.cache.len();
        let mut i: usize = 0;
        while i < n
            invariant
                old(self).wf(),
                0 <= i <= n,
                n == pre.len(),
                pre == old(self).cache@,
                *self == *old(self),
                forall|k: int| 0 <= k < i ==> (#[trigger] pre[k]).0 != token,
            decreases n - i,
        {
            if self.cache[i].0 == token {
                let entry = self.cache[i].1;
                let updated = (token, CachedResult { requested_at: now, ..entry });
                self.cache.remove(i);
                self.cache.insert(i, updated);
                proof {
                    lemma_cached_for_index(pre, token, i as int);
                    assert(self.cache@ =~= pre.update(i as int, updated));
                    assert(self.cache@ =~= bump_requested(pre, token, now));
                }
                let is_recent = now.saturating_sub(entry.updated_at) < max_age;
                if is_recent {
                    return Some(entry.result);
                } else {
                    return None;
                }
            }
            i = i + 1;
        }
        proof {
            lemma_cached_for_none(pre, token);
        }
        if create_missing_entry {
            // An already-outdated entry: the maintenance pass will fetch
            // the price during the next cycle. Only auction building may
            // create entries this way, else anyone could blow the cache
            // up.
            let outdated_timestamp = now - max_age;
            self.cache.push(
                (
                    token,
                    CachedResult {
                        result: Ok(0),
                        updated_at: outdated_timestamp,
                        requested_at: now,
                    },
                ),
            );
            proof {
                assert forall|x: int, y: int|
                    0 <= x < y < self.cache@.len() implies (#[trigger] self.cache@[x]).0 != (
                #[trigger] self.cache@[y]).0 by {
                    if y < pre.len() {
                        assert(self.cache@[x] == pre[x]);
                        assert(self.cache@[y] == pre[y]);
                    } else {
                        assert(self.cache@[x] == pre[x]);
                        assert(self.cache@[y].0 == token);
                    }
                }
            }
        }
        None
    }
}

proof fn lemma_bump_lookup(cache: Seq<(Address, CachedResult)>, token: Address, now: u64, t: Address)
    ensures
        cached_for(bump_requested(cache, token, now), t) == match cached_for(cache, t) {
            Some(c) => Some(
                if t == token {
                    CachedResult { requested_at: now, ..c }
                } else {
                    c
                },
            ),
            None => None::<CachedResult>,
        },
    decreases cache.len(),
{
    if cache.len() > 0 {
        assert(bump_requested(cache, token, now).drop_first() =~= bump_requested(
            cache.drop_first(),
            token,
            now,
        ));
        lemma_bump_lookup(cache.drop_first(), token, now, t);
    }
}

proof fn lemma_set_lookup(
    cache: Seq<(Address, CachedResult)>,
    token: Address,
    c: CachedResult,
    t: Address,
)
    ensures
        cached_for(set_entry(cache, token, c), t) == match cached_for(cache, t) {
            Some(o) => Some(
                if t == token {
                    c
                } else {
                    o
                },
            ),
            None => None::<CachedResult>,
        },
    decreases cache.len(),
{
    if cache.len() > 0 {
        assert(set_entry(cache, token, c).drop_first() =~= set_entry(
            cache.drop_first(),
            token,
            c,
        ));
        lemma_set_lookup(cache.drop_first(), token, c, t);
    }
}

proof fn lemma_push_lookup(cache: Seq<(Address, CachedResult)>, p: (Address, CachedResult), t: Address)
    ensures
        cached_for(cache.push(p), t) == match cached_for(cache, t) {
            Some(o) => Some(o),
            None => if p.0 == t {
                Some(p.1)
            } else {
                None::<CachedResult>
            },
        },
    decreases cache.len(),
{
    if cache.len() == 0 {
        assert(cache.push(p)[0] == p);
        if p.0 != t {
            assert(cache.push(p).drop_first() =~= Seq::<(Address, CachedResult)>::empty());
            assert(cached_for(cache.push(p), t) == cached_for(
                Seq::<(Address, CachedResult)>::empty(),
                t,
            ));
        }
    } else {
        assert(cache.push(p)[0] == cache[0]);
        assert(cache.push(p).drop_first() =~= cache.drop_first().push(p));
        lemma_push_lookup(cache.drop_first(), p, t);
        if cache[0].0 == t {
            assert(cached_for(cache.push(p), t) == Some(cache[0].1));
            assert(cached_for(cache, t) == Some(cache[0].1));
        } else {
            assert(cached_for(cache.push(p), t) == cached_for(cache.drop_first().push(p), t));
            assert(cached_for(cache, t) == cached_for(cache.drop_first(), t));
        }
    }
}

/// A refresh step changes no other token's entry.
proof fn lemma_refresh_others_unchanged(
    pre: Seq<(Address, CachedResult)>,
    token: Address,
    now: u64,
    max_age: u64,
    post: Seq<(Address, CachedResult)>,
    result: CacheEntry,
    t: Address,
)
    requires
        refresh_rel(pre, token, now, max_age, post, result),
        t != token,
    ensures
        cached_for(post, t) == cached_for(pre, t),
{
    match cached_for(pre, token) {
        Some(c) => {
            lemma_bump_lookup(pre, token, now, t);
            if !is_fresh(c, now, max_age) && should_cache_spec(result) {
                lemma_set_lookup(
                    pre,
                    token,
                    CachedResult { result, updated_at: now, requested_at: now },
                    t,
                );
            }
        },
        None => {
            if should_cache_spec(result) {
                lemma_push_lookup(
                    pre,
                    (token, CachedResult { result, updated_at: now, requested_at: now }),
                    t,
                );
            }
        },
    }
}

impl<E: NativePriceEstimating> CachingNativePriceEstimator<E> {
    /// Replaces or creates the entry of a token.
    fn insert_entry(&mut self, token: Address, c: CachedResult)
        requires
            old(self).wf(),
        ensures
            final(self).wf(),
            final(self).same_settings(*old(self)),
            final(self).estimator == old(self).estimator,
            final(self).cache@ == match cached_for(old(self).cache@, token) {
                Some(_) => set_entry(old(self).cache@, token, c),
                None => old(self).cache@.push((token, c)),
            },
    {
        let ghost pre = self.cache@;
        let n = self.cache.len();
        let mut i: usize = 0;
        while i < n
            invariant
                old(self).wf(),
                0 <= i <= n,
                n == pre.len(),
                pre == old(self).cache@,
                *self == *old(self),
                forall|k: int| 0 <= k < i ==> (#[trigger] pre[k]).0 != token,
            decreases n - i,
        {
            if self.cache[i].0 == token {
                self.cache.remove(i);
                self.cache.insert(i, (token, c));
                proof {
                    lemma_cached_for_index(pre, token, i as int);
                    assert(self.cache@ =~= pre.update(i as int, (token, c)));
                    assert(self.cache@ =~= set_entry(pre, token, c));
                }
                return ;
            }
            i = i + 1;
        }
        proof {
            lemma_cached_for_none(pre, token);
        }
        self.cache.push((token, c));
        proof {
            assert forall|x: int, y: int|
                0 <= x < y < self.cache@.len() implies (#[trigger] self.cache@[x]).0 != (
            #[trigger] self.cache@[y]).0 by {
                if y < pre.len() {
                    assert(self.cache@[x] == pre[x]);
                    assert(self.cache@[y] == pre[y]);
                } else {
                    assert(self.cache@[x] == pre[x]);
                    assert(self.cache@[y].0 == token);
                }
            }
        }
    }

    /// Looks the token up under the given freshness bound and, on a miss,
    /// asks the backend and caches what deserves caching.
    fn refresh_token(&mut self, token: Address, now: u64, max_age: u64) -> (result: CacheEntry)
        requires
            old(self).wf(),
        ensures
            final(self).wf(),
            final(self).same_settings(*old(self)),
            refresh_rel(old(self).cache@, token, now, max_age, final(self).cache@, result),
    {
        let ghost pre = self.cache@;
        // Check the cache first: some other task may just have fetched
        // the price.
        let cached = self.get_cached_price(token, now, max_age, false);
        if let Some(price) = cached {
            return price;
        }
        let result = self.estimator.estimate_native_price(token);
        if should_cache(&result) {
            let ghost mid = self.cache@;
            self.insert_entry(
                token,
                CachedResult { result, updated_at: now, requested_at: now },
            );
            proof {
                match cached_for(pre, token) {
                    Some(c) => {
                        lemma_bump_lookup(pre, token, now, token);
                        assert(cached_for(mid, token) is Some);
                        assert(self.cache@ == set_entry(mid, token, CachedResult {
                            result,
                            updated_at: now,
                            requested_at: now,
                        }));
                        assert(self.cache@ =~= set_entry(pre, token, CachedResult {
                            result,
                            updated_at: now,
                            requested_at: now,
                        }));
                    },
                    None => {
                        assert(mid == pre);
                    },
                }
            }
        }
        result
    }

    /// Estimates the token's native price: a fresh cached answer is
    /// served as cached; otherwise whatever the backend returns is handed
    /// to the caller unchanged and cached exactly when it deserves
    /// caching.
    pub fn estimate_native_price(&mut self, token: Address, now: u64) -> (result: CacheEntry)
        requires
            old(self).wf(),
        ensures
            final(self).wf(),
            final(self).same_settings(*old(self)),
            refresh_rel(
                old(self).cache@,
                token,
                now,
                old(self).max_age,
                final(self).cache@,
                result,
            ),
    {
        let max_age = self.max_age;
        self.refresh_token(token, now, max_age)
    }
}

/// The answer one cached-only lookup gives: the entry's result when it is
/// cached and fresh, nothing otherwise.
pub open spec fn lookup_result(
    cache: Seq<(Address, CachedResult)>,
    token: Address,
    now: u64,
    max_age: u64,
) -> Option<CacheEntry> {
    match cached_for(cache, token) {
        Some(c) => if is_fresh(c, now, max_age) {
            Some(c.result)
        } else {
            None
        },
        None => None,
    }
}

/// The cache after one cached-only lookup with sentinel creation.
pub open spec fn after_lookup(
    cache: Seq<(Address, CachedResult)>,
    token: Address,
    now: u64,
    max_age: u64,
) -> Seq<(Address, CachedResult)> {
    match cached_for(cache, token) {
        Some(_) => bump_requested(cache, token, now),
        None => cache.push((token, sentinel_entry(now, max_age))),
    }
}

/// The cache and the results after looking every token up in turn, with
/// sentinel creation for the missing ones.
pub open spec fn prices_model(
    cache: Seq<(Address, CachedResult)>,
    tokens: Seq<Address>,
    now: u64,
    max_age: u64,
) -> (Seq<(Address, CachedResult)>, Seq<(Address, CacheEntry)>)
    decreases tokens.len(),
{
    if tokens.len() == 0 {
        (cache, Seq::empty())
    } else {
        let t = tokens[0];
        let r1 = lookup_result(cache, t, now, max_age);
        let c1 = after_lookup(cache, t, now, max_age);
        let rest = prices_model(c1, tokens.drop_first(), now, max_age);
        (
            rest.0,
            match r1 {
                Some(r) => seq![(t, r)] + rest.1,
                None => rest.1,
            },
        )
    }
}

impl<E: NativePriceEstimating> CachingNativePriceEstimator<E> {
    /// Returns only prices that are currently cached and fresh, never
    /// consulting the backend. Each missing token leaves an
    /// already-outdated entry behind, so the maintenance pass fetches its
    /// price during the next cycles.
    pub fn get_cached_prices(&mut self, tokens: &Vec<Address>, now: u64) -> (results: Vec<
        (Address, CacheEntry),
    >)
        requires
            old(self).wf(),
            old(self).max_age <= now,
        ensures
            final(self).wf(),
            final(self).same_settings(*old(self)),
            final(self).estimator == old(self).estimator,
            final(self).cache@ == prices_model(
                old(self).cache@,
                tokens@,
                now,
                old(self).max_age,
            ).0,
            results@ == prices_model(old(self).cache@, tokens@, now, old(self).max_age).1,
    {
        let ghost cache0 = self.cache@;
        let ghost age = self.max_age;
        let mut results: Vec<(Address, CacheEntry)> = Vec::new();
        let n = tokens.len();
        let mut i: usize = 0;
        proof {
            assert(tokens@.skip(0) =~= tokens@);
            assert(prices_model(cache0, tokens@, now, age).1 =~= Seq::<
                (Address, CacheEntry),
            >::empty() + prices_model(cache0, tokens@, now, age).1);
        }
        while i < n
            invariant
                old(self).wf(),
                self.wf(),
                0 <= i <= n,
                n == tokens@.len(),
                age == old(self).max_age,
                age <= now,
                cache0 == old(self).cache@,
                self.same_settings(*old(self)),
                self.estimator == old(self).estimator,
                prices_model(cache0, tokens@, now, age).0 == prices_model(
                    self.cache@,
                    tokens@.skip(i as int),
                    now,
                    age,
                ).0,
                prices_model(cache0, tokens@, now, age).1 == results@ + prices_model(
                    self.cache@,
                    tokens@.skip(i as int),
                    now,
                    age,
                ).1,
            decreases n - i,
        {
            let t = tokens[i];
            let ghost mid = self.cache@;
            let max_age = self.max_age;
            let cached = self.get_cached_price(t, now, max_age, true);
            proof {
                assert(tokens@.skip(i as int)[0] == tokens@[i as int]);
                assert(tokens@.skip(i as int).drop_first() =~= tokens@.skip(i + 1));
                assert(self.cache@ == after_lookup(mid, t, now, age));
                assert(cached == lookup_result(mid, t, now, age));
            }
            if let Some(result) = cached {
                results.push((t, result));
                proof {
                    let rest = prices_model(self.cache@, tokens@.skip(i + 1), now, age);
                    assert(results@ + rest.1 =~= (results@.drop_last() + (seq![(t, result)]
                        + rest.1)));
                }
            }
            i = i + 1;
        }
        proof {
            assert(tokens@.skip(n as int) =~= Seq::<Address>::empty());
            assert(prices_model(cache0, tokens@, now, age).1 =~= results@ + Seq::<
                (Address, CacheEntry),
            >::empty());
        }
        results
    }
}

/// The `(token, requested_at)` pairs of the entries older than `max_age`,
/// in cache order.
pub open spec fn outdated_entries(
    cache: Seq<(Address, CachedResult)>,
    max_age: u64,
    now: u64,
) -> Seq<(Address, u64)>
    decreases cache.len(),
{
    if cache.len() == 0 {
        Seq::empty()
    } else {
        let rest = outdated_entries(cache.drop_last(), max_age, now);
        if sat_sub(now, cache.last().1.updated_at) > max_age {
            rest.push((cache.last().0, cache.last().1.requested_at))
        } else {
            rest
        }
    }
}

/// Whether a token is high priority.
pub open spec fn priority_of(high_priority: Seq<Address>, token: Address) -> int {
    if high_priority.contains(token) {
        1
    } else {
        0
    }
}

/// The order the maintenance pass refreshes entries in: high-priority
/// tokens first, then the most recently requested first.
pub open spec fn update_order(
    high_priority: Seq<Address>,
    a: (Address, u64),
    b: (Address, u64),
) -> bool {
    ||| priority_of(high_priority, a.0) > priority_of(high_priority, b.0)
    ||| (priority_of(high_priority, a.0) == priority_of(high_priority, b.0) && a.1 >= b.1)
}

fn is_high_priority(high_priority: &Vec<Address>, token: Address) -> (r: bool)
    ensures
        r == (priority_of(high_priority@, token) == 1),
{
    let mut i: usize = 0;
    while i < high_priority.len()
        invariant
            0 <= i <= high_priority@.len(),
            forall|k: int| 0 <= k < i ==> high_priority@[k] != token,
        decreases high_priority@.len() - i,
    {
        if high_priority[i] == token {
            return true;
        }
        i = i + 1;
    }
    false
}

/// `update_order(hp, a, b)` as executable code.
fn order_ge(high_priority: &Vec<Address>, a: (Address, u64), b: (Address, u64)) -> (r: bool)
    ensures
        r == update_order(high_priority@, a, b),
{
    let pa = is_high_priority(high_priority, a.0);
    let pb = is_high_priority(high_priority, b.0);
    if pa != pb {
        pa
    } else {
        a.1 >= b.1
    }
}

impl<E: NativePriceEstimating> CachingNativePriceEstimator<E> {
    /// The entries older than `max_age` at `now`, the ones to refresh
    /// first at the front: high-priority tokens, then the most recently
    /// requested.
    pub fn sorted_tokens_to_update(&self, max_age: u64, now: u64) -> (r: Vec<(Address, u64)>)
        ensures
            r@.to_multiset() == outdated_entries(self.cache@, max_age, now).to_multiset(),
            forall|x: int, y: int|
                0 <= x < y < r@.len() ==> update_order(self.high_priority@, r@[x], r@[y]),
    {
        let ghost all = outdated_entries(self.cache@, max_age, now);
        let mut outdated: Vec<(Address, u64)> = Vec::new();
        let n = self.cache.len();
        let mut i: usize = 0;
        while i < n
            invariant
                0 <= i <= n,
                n == self.cache@.len(),
                outdated@ == outdated_entries(self.cache@.take(i as int), max_age, now),
            decreases n - i,
        {
            let entry = self.cache[i];
            proof {
                assert(self.cache@.take(i + 1).drop_last() =~= self.cache@.take(i as int));
                assert(self.cache@.take(i + 1).last() == self.cache@[i as int]);
            }
            if now.saturating_sub(entry.1.updated_at) > max_age {
                outdated.push((entry.0, entry.1.requested_at));
            }
            i = i + 1;
        }
        proof {
            assert(self.cache@.take(n as int) =~= self.cache@);
        }

        // Selection sort: repeatedly move the entry to refresh soonest.
        let mut sorted: Vec<(Address, u64)> = Vec::new();
        proof {
            sorted@.to_multiset_ensures();
            assert forall|p: (Address, u64)| sorted@.to_multiset().count(p) == 0 by {
                assert(!sorted@.contains(p));
            }
            assert(sorted@.to_multiset().add(outdated@.to_multiset()) =~= outdated@.to_multiset());
        }
        while outdated.len() > 0
            invariant
                sorted@.to_multiset().add(outdated@.to_multiset()) == all.to_multiset(),
                forall|x: int, y: int|
                    0 <= x < y < sorted@.len() ==> update_order(
                        self.high_priority@,
                        sorted@[x],
                        sorted@[y],
                    ),
                forall|x: int, y: int|
                    0 <= x < sorted@.len() && 0 <= y < outdated@.len() ==> update_order(
                        self.high_priority@,
                        sorted@[x],
                        outdated@[y],
                    ),
            decreases outdated@.len(),
        {
            let mut m: usize = 0;
            let mut j: usize = 1;
            while j < outdated.len()
                invariant
                    0 <= m < j <= outdated@.len(),
                    forall|k: int|
                        0 <= k < j ==> update_order(
                            self.high_priority@,
                            outdated@[m as int],
                            outdated@[k],
                        ),
                decreases outdated@.len() - j,
            {
                if !order_ge(&self.high_priority, outdated[m], outdated[j]) {
                    proof {
                        assert forall|k: int|
                            0 <= k < j implies update_order(
                            self.high_priority@,
                            outdated@[j as int],
                            outdated@[k],
                        ) by {
                            assert(update_order(
                                self.high_priority@,
                                outdated@[m as int],
                                outdated@[k],
                            ));
                        }
                    }
                    m = j;
                }
                j = j + 1;
            }
            let ghost pre_sorted = sorted@;
            let ghost pre_outdated = outdated@;
            let x = outdated.remove(m);
            sorted.push(x);
            proof {
                assert(sorted@ == pre_sorted.push(x));
                assert(outdated@ == pre_outdated.remove(m as int));
                assert(x == pre_outdated[m as int]);
                pre_sorted.to_multiset_ensures();
                pre_outdated.to_multiset_ensures();
                assert(pre_sorted.push(x).to_multiset() =~= pre_sorted.to_multiset().insert(x));
                assert(pre_outdated.remove(m as int).to_multiset() =~= pre_outdated.to_multiset()
                    .remove(pre_outdated[m as int]));
                assert(pre_outdated.to_multiset().count(x) > 0) by {
                    assert(pre_outdated.contains(x));
                }
                assert(sorted@.to_multiset().add(outdated@.to_multiset()) =~= all.to_multiset());
                assert forall|k: int|
                    0 <= k < outdated@.len() implies update_order(
                    self.high_priority@,
                    x,
                    outdated@[k],
                ) by {
                    if k < m {
                        assert(outdated@[k] == pre_outdated[k]);
                    } else {
                        assert(outdated@[k] == pre_outdated[k + 1]);
                    }
                }
            }
        }
        proof {
            outdated@.to_multiset_ensures();
            assert forall|p: (Address, u64)| outdated@.to_multiset().count(p) == 0 by {
                assert(!outdated@.contains(p));
            }
            assert(sorted@.to_multiset() =~= sorted@.to_multiset().add(outdated@.to_multiset()));
        }
        sorted
    }
}

/// How one attempted refresh leaves a token's entry: a fresh entry had
/// only its request instant bumped; an outdated or missing one was either
/// refreshed at `now` with a result worth caching, or left with its old
/// result when the backend's answer was transient.
pub open spec fn refresh_attempted(
    pre: Option<CachedResult>,
    post: Option<CachedResult>,
    now: u64,
    max_age: u64,
) -> bool {
    match (pre, post) {
        (Some(c), Some(c2)) => {
            if is_fresh(c, now, max_age) {
                c2 == CachedResult { requested_at: now, ..c }
            } else {
                ||| c2 == CachedResult { requested_at: now, ..c }
                ||| (should_cache_spec(c2.result) && c2.updated_at == now && c2.requested_at
                    == now)
            }
        },
        (None, None) => true,
        (None, Some(c2)) => should_cache_spec(c2.result) && c2.updated_at == now
            && c2.requested_at == now,
        (Some(_), None) => false,
    }
}

/// Some entry of the list carries the token.
pub open spec fn token_in(entries: Seq<(Address, u64)>, t: Address) -> bool {
    exists|k: int| 0 <= k < entries.len() && (#[trigger] entries[k]).0 == t
}

/// How many entries one maintenance pass may refresh.
pub open spec fn min_take(update_size: Option<usize>, len: int) -> int {
    match update_size {
        Some(v) => if v as int <= len {
            v as int
        } else {
            len
        },
        None => len,
    }
}

/// A refresh step leaves its own token's entry as an attempted refresh
/// does.
proof fn lemma_refresh_rel_own_token(
    pre: Seq<(Address, CachedResult)>,
    token: Address,
    now: u64,
    max_age: u64,
    post: Seq<(Address, CachedResult)>,
    result: CacheEntry,
)
    requires
        refresh_rel(pre, token, now, max_age, post, result),
    ensures
        refresh_attempted(cached_for(pre, token), cached_for(post, token), now, max_age),
{
    match cached_for(pre, token) {
        Some(c) => {
            lemma_bump_lookup(pre, token, now, token);
            if !is_fresh(c, now, max_age) && should_cache_spec(result) {
                lemma_set_lookup(
                    pre,
                    token,
                    CachedResult { result, updated_at: now, requested_at: now },
                    token,
                );
            }
        },
        None => {
            if should_cache_spec(result) {
                lemma_push_lookup(
                    pre,
                    (token, CachedResult { result, updated_at: now, requested_at: now }),
                    token,
                );
            }
        },
    }
}

/// Attempted refreshes at one instant compose.
proof fn lemma_refresh_attempted_trans(
    e0: Option<CachedResult>,
    e1: Option<CachedResult>,
    e2: Option<CachedResult>,
    now: u64,
    max_age: u64,
)
    requires
        refresh_attempted(e0, e1, now, max_age),
        refresh_attempted(e1, e2, now, max_age),
    ensures
        refresh_attempted(e0, e2, now, max_age),
{
}

proof fn lemma_token_in_take_step(entries: Seq<(Address, u64)>, i: int, t: Address)
    requires
        0 <= i < entries.len(),
    ensures
        token_in(entries.take(i + 1), t) <==> (token_in(entries.take(i), t) || entries[i].0
            == t),
{
    let taken = entries.take(i + 1);
    if token_in(taken, t) {
        let w = choose|w: int| 0 <= w < taken.len() && (#[trigger] taken[w]).0 == t;
        if w < i {
            assert((#[trigger] entries.take(i)[w]).0 == t);
        } else {
            assert(taken[w] == entries[i]);
        }
    }
    if token_in(entries.take(i), t) {
        let w = choose|w: int| 0 <= w < i && (#[trigger] entries.take(i)[w]).0 == t;
        assert((#[trigger] taken[w]).0 == t);
    }
    if entries[i].0 == t {
        assert((#[trigger] taken[i]).0 == t);
    }
}

impl<E> CachingNativePriceEstimator<E> {
    /// The freshness bound of the maintenance pass: entries are treated
    /// as expiring `prefetch_time` early, so they are refreshed shortly
    /// before callers would see them expire.
    pub open spec fn effective_max_age(self) -> u64 {
        if self.max_age >= self.prefetch_time {
            (self.max_age - self.prefetch_time) as u64
        } else {
            0
        }
    }
}

impl<E: NativePriceEstimating> CachingNativePriceEstimator<E> {
    /// One maintenance pass at `now`: refreshes the entries that would
    /// expire within `prefetch_time`, at most `update_size` of them,
    /// high-priority tokens and most recently requested ones first.
    /// Returns the entries it attempted, in that order; the backend's
    /// answers are recorded in the cache and otherwise swallowed, so one
    /// bad token never stalls the pass.
    pub fn update_outdated_prices(&mut self, now: u64) -> (updated: Vec<(Address, u64)>)
        requires
            old(self).wf(),
        ensures
            final(self).wf(),
            final(self).same_settings(*old(self)),
            exists|all: Seq<(Address, u64)>|
                {
                    &&& #[trigger] all.to_multiset() == outdated_entries(
                        old(self).cache@,
                        old(self).effective_max_age(),
                        now,
                    ).to_multiset()
                    &&& (forall|x: int, y: int|
                        0 <= x < y < all.len() ==> update_order(
                            old(self).high_priority@,
                            all[x],
                            all[y],
                        ))
                    &&& updated@ == all.take(min_take(old(self).update_size, all.len() as int))
                },
            forall|t: Address|
                !token_in(updated@, t) ==> #[trigger] cached_for(final(self).cache@, t)
                    == cached_for(old(self).cache@, t),
            forall|k: int|
                0 <= k < updated@.len() ==> refresh_attempted(
                    cached_for(old(self).cache@, (#[trigger] updated@[k]).0),
                    cached_for(final(self).cache@, updated@[k].0),
                    now,
                    old(self).effective_max_age(),
                ),
    {
        let max_age = self.max_age.saturating_sub(self.prefetch_time);
        let sorted = self.sorted_tokens_to_update(max_age, now);
        let ghost all = sorted@;
        let limit: usize = match self.update_size {
            Some(size) => if size < sorted.len() {
                size
            } else {
                sorted.len()
            },
            None => sorted.len(),
        };
        proof {
            assert(max_age == old(self).effective_max_age());
            assert(limit as int == min_take(old(self).update_size, all.len() as int));
        }
        let mut updated: Vec<(Address, u64)> = Vec::new();
        let mut i: usize = 0;
        proof {
            assert(all.take(0) =~= Seq::<(Address, u64)>::empty());
        }
        while i < limit
            invariant
                old(self).wf(),
                self.wf(),
                0 <= i <= limit <= all.len(),
                all.len() == sorted@.len(),
                sorted@ == all,
                max_age == old(self).effective_max_age(),
                self.same_settings(*old(self)),
                updated@ == all.take(i as int),
                forall|t: Address|
                    !token_in(all.take(i as int), t) ==> #[trigger] cached_for(self.cache@, t)
                        == cached_for(old(self).cache@, t),
                forall|t: Address|
                    token_in(all.take(i as int), t) ==> refresh_attempted(
                        cached_for(old(self).cache@, t),
                        #[trigger] cached_for(self.cache@, t),
                        now,
                        max_age,
                    ),
            decreases limit - i,
        {
            let entry = sorted[i];
            updated.push(entry);
            let ghost mid = self.cache@;
            let _result = self.refresh_token(entry.0, now, max_age);
            proof {
                assert(all.take(i + 1).drop_last() =~= all.take(i as int));
                assert(all.take(i + 1).last() == all[i as int]);
                assert(updated@ == all.take(i + 1));
                lemma_refresh_rel_own_token(mid, entry.0, now, max_age, self.cache@, _result);
                assert forall|t: Address|
                    !token_in(all.take(i + 1), t) implies #[trigger] cached_for(self.cache@, t)
                    == cached_for(old(self).cache@, t) by {
                    lemma_token_in_take_step(all, i as int, t);
                    lemma_refresh_others_unchanged(
                        mid,
                        entry.0,
                        now,
                        max_age,
                        self.cache@,
                        _result,
                        t,
                    );
                }
                assert forall|t: Address|
                    token_in(all.take(i + 1), t) implies refresh_attempted(
                    cached_for(old(self).cache@, t),
                    #[trigger] cached_for(self.cache@, t),
                    now,
                    max_age,
                ) by {
                    lemma_token_in_take_step(all, i as int, t);
                    if t == entry.0 {
                        if token_in(all.take(i as int), t) {
                            lemma_refresh_attempted_trans(
                                cached_for(old(self).cache@, t),
                                cached_for(mid, t),
                                cached_for(self.cache@, t),
                                now,
                                max_age,
                            );
                        }
                    } else {
                        lemma_refresh_others_unchanged(
                            mid,
                            entry.0,
                            now,
                            max_age,
                            self.cache@,
                            _result,
                            t,
                        );
                    }
                }
            }
            i = i + 1;
        }
        proof {
            assert forall|k: int|
                0 <= k < updated@.len() implies refresh_attempted(
                cached_for(old(self).cache@, (#[trigger] updated@[k]).0),
                cached_for(self.cache@, updated@[k].0),
                now,
                old(self).effective_max_age(),
            ) by {
                assert((#[trigger] all.take(limit as int)[k]).0 == updated@[k].0);
                assert(token_in(all.take(limit as int), updated@[k].0));
            }
        }
        updated
    }
}

/// A sentinel entry is stale from the moment it is created, so neither
/// public getter ever serves it: it only signals the maintenance pass.
pub proof fn lemma_sentinel_never_fresh(now: u64, max_age: u64, later: u64)
    requires
        max_age <= now,
        now <= later,
    ensures
        !is_fresh(sentinel_entry(now, max_age), later, max_age),
{
}

/// A fresh cache hit: the result returned is exactly what was cached at
/// its `updated_at` instant, and the entry's result and update instant
/// survive the call.
pub proof fn lemma_fresh_hit_served_from_cache(
    pre: Seq<(Address, CachedResult)>,
    token: Address,
    now: u64,
    max_age: u64,
    post: Seq<(Address, CachedResult)>,
    result: CacheEntry,
)
    requires
        refresh_rel(pre, token, now, max_age, post, result),
        cached_for(pre, token) is Some,
        is_fresh(cached_for(pre, token).unwrap(), now, max_age),
    ensures
        result == cached_for(pre, token).unwrap().result,
        cached_for(post, token) is Some,
        cached_for(post, token).unwrap().result == cached_for(pre, token).unwrap().result,
        cached_for(post, token).unwrap().updated_at == cached_for(pre, token).unwrap().updated_at,
{
    lemma_bump_lookup(pre, token, now, token);
}

/// A transient estimator error is returned to the caller but never
/// creates a cache entry: a token absent before the call is absent after
/// it.
pub proof fn lemma_transient_error_not_cached(
    pre: Seq<(Address, CachedResult)>,
    token: Address,
    now: u64,
    max_age: u64,
    post: Seq<(Address, CachedResult)>,
    result: CacheEntry,
)
    requires
        refresh_rel(pre, token, now, max_age, post, result),
        cached_for(pre, token) is None,
        !should_cache_spec(result),
    ensures
        cached_for(post, token) is None,
{
}

} // verus!
