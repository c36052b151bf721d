use auction_core::native_price_cache::{
    should_cache, CacheEntry, CachingNativePriceEstimator, NativePriceEstimating,
    PriceEstimationError,
};
use auction_core::order::Address;

fn token(v: u64) -> Address {
    Address(v)
}

/// A scripted backend: answers from a list, repeating the last one, and
/// counts how often it was asked.
struct ScriptedEstimator {
    responses: Vec<CacheEntry>,
    calls: usize,
}

impl ScriptedEstimator {
    fn always(entry: CacheEntry) -> Self {
        ScriptedEstimator { responses: vec![entry], calls: 0 }
    }

    fn script(responses: Vec<CacheEntry>) -> Self {
        ScriptedEstimator { responses, calls: 0 }
    }
}

impl NativePriceEstimating for ScriptedEstimator {
    fn estimate_native_price(&mut self, _token: Address) -> CacheEntry {
        let index = self.calls.min(self.responses.len() - 1);
        self.calls += 1;
        self.responses[index]
    }
}

#[test]
fn caches_successful_estimates() {
    let inner = ScriptedEstimator::always(Ok(1));
    let mut estimator = CachingNativePriceEstimator::new(inner, 30, 0, None, 0, 1);
    for call in 0..10u64 {
        // One call per instant; all stay within the 30 instant bound.
        let result = estimator.estimate_native_price(token(0), call);
        assert_eq!(result, Ok(1));
    }
    assert_eq!(estimator.estimator.calls, 1);
}

#[test]
fn caches_nonrecoverable_failed_estimates() {
    let inner = ScriptedEstimator::always(Err(PriceEstimationError::NoLiquidity));
    let mut estimator = CachingNativePriceEstimator::new(inner, 30, 0, None, 0, 1);
    for call in 0..10u64 {
        let result = estimator.estimate_native_price(token(0), call);
        assert_eq!(result, Err(PriceEstimationError::NoLiquidity));
    }
    assert_eq!(estimator.estimator.calls, 1);
}

#[test]
fn does_not_cache_recoverable_failed_estimates() {
    let inner = ScriptedEstimator::always(Err(PriceEstimationError::RateLimited));
    let mut estimator = CachingNativePriceEstimator::new(inner, 30, 0, None, 0, 1);
    for call in 0..10u64 {
        let result = estimator.estimate_native_price(token(0), call);
        assert_eq!(result, Err(PriceEstimationError::RateLimited));
    }
    assert_eq!(estimator.estimator.calls, 10);
}

#[test]
fn maintenance_can_limit_update_size_to_n() {
    // Two cached entries outdated at once; a pass limited to one entry
    // refreshes only the most recently requested token.
    let inner = ScriptedEstimator::script(vec![Ok(1), Ok(2), Ok(4), Ok(3)]);
    let mut estimator = CachingNativePriceEstimator::new(inner, 30, 50, Some(1), 0, 1);

    // fill cache with 2 different queries
    let result = estimator.estimate_native_price(token(0), 0);
    assert_eq!(result, Ok(1));
    let result = estimator.estimate_native_price(token(1), 1);
    assert_eq!(result, Ok(2));

    // both entries outdated at instant 60; only token 1 gets refreshed
    let updated = estimator.update_outdated_prices(60);
    assert_eq!(updated.len(), 1);
    assert_eq!(updated[0].0, token(1));

    // the skipped token is fetched again on demand, the refreshed one
    // is served from the cache
    let result = estimator.estimate_native_price(token(0), 61);
    assert_eq!(result, Ok(3));
    let result = estimator.estimate_native_price(token(1), 61);
    assert_eq!(result, Ok(4));
    assert_eq!(estimator.estimator.calls, 4);
}

#[test]
fn maintenance_can_update_all_old_queries() {
    let mut responses: Vec<CacheEntry> = Vec::new();
    for _ in 0..10 {
        responses.push(Ok(1));
    }
    for _ in 0..10 {
        responses.push(Ok(2));
    }
    let inner = ScriptedEstimator::script(responses);
    let mut estimator = CachingNativePriceEstimator::new(inner, 30, 50, None, 0, 1);

    for t in 0..10u64 {
        let price = estimator.estimate_native_price(token(t), 0);
        assert_eq!(price, Ok(1));
    }

    // an unlimited pass refreshes every outdated entry
    let updated = estimator.update_outdated_prices(60);
    assert_eq!(updated.len(), 10);

    for t in 0..10u64 {
        let price = estimator.estimate_native_price(token(t), 61);
        assert_eq!(price, Ok(2));
    }
    assert_eq!(estimator.estimator.calls, 20);
}

#[test]
fn outdated_entries_prioritized() {
    let t0 = token(0);
    let t1 = token(1);
    let inner = ScriptedEstimator::always(Ok(0));
    let mut estimator = CachingNativePriceEstimator::new(inner, 0, 0, None, 0, 1);
    // Two entries updated and requested at the same instant.
    let _ = estimator.estimate_native_price(t0, 0);
    let _ = estimator.estimate_native_price(t1, 0);

    estimator.replace_high_priority(vec![t0]);
    let tokens = estimator.sorted_tokens_to_update(0, 1000);
    assert_eq!(tokens[0].0, t0);
    assert_eq!(tokens[1].0, t1);

    estimator.replace_high_priority(vec![t1]);
    let tokens = estimator.sorted_tokens_to_update(0, 1000);
    assert_eq!(tokens[0].0, t1);
    assert_eq!(tokens[1].0, t0);
}

#[test]
fn get_cached_prices_returns_only_fresh_entries_and_plants_sentinels() {
    let inner = ScriptedEstimator::always(Ok(5));
    let mut estimator = CachingNativePriceEstimator::new(inner, 30, 0, None, 0, 1);
    let _ = estimator.estimate_native_price(token(0), 40);

    // Token 0 is fresh, token 1 missing: only token 0 is returned and
    // token 1 gets an already-outdated entry for the maintenance pass.
    let results = estimator.get_cached_prices(&vec![token(0), token(1)], 41);
    assert_eq!(results, vec![(token(0), Ok(5))]);

    let outdated = estimator.sorted_tokens_to_update(30, 81);
    assert_eq!(outdated.len(), 2);

    // The sentinel itself is never served to callers.
    let results = estimator.get_cached_prices(&vec![token(1)], 41);
    assert_eq!(results, vec![]);
}

#[test]
fn fresh_hit_is_served_as_cached() {
    // A value cached at instant 10 is served unchanged while its age
    // stays below the bound, and the backend is left alone.
    let inner = ScriptedEstimator::script(vec![Ok(123), Ok(999)]);
    let mut estimator = CachingNativePriceEstimator::new(inner, 30, 0, None, 0, 1);
    assert_eq!(estimator.estimate_native_price(token(7), 10), Ok(123));
    assert_eq!(estimator.estimate_native_price(token(7), 39), Ok(123));
    assert_eq!(estimator.estimator.calls, 1);
    // At instant 40 the entry is exactly 30 old and no longer fresh.
    assert_eq!(estimator.estimate_native_price(token(7), 40), Ok(999));
    assert_eq!(estimator.estimator.calls, 2);
}

#[test]
fn transient_error_leaves_no_entry() {
    let inner = ScriptedEstimator::always(Err(PriceEstimationError::EstimatorInternal));
    let mut estimator = CachingNativePriceEstimator::new(inner, 30, 0, None, 0, 1);
    let result = estimator.estimate_native_price(token(3), 5);
    assert_eq!(result, Err(PriceEstimationError::EstimatorInternal));
    assert!(estimator.cache.is_empty());
}

#[test]
fn should_cache_classification() {
    assert!(should_cache(&Ok(1)));
    assert!(should_cache(&Err(PriceEstimationError::NoLiquidity)));
    assert!(should_cache(&Err(PriceEstimationError::UnsupportedToken)));
    assert!(!should_cache(&Err(PriceEstimationError::UnsupportedOrderType)));
    assert!(!should_cache(&Err(PriceEstimationError::RateLimited)));
    assert!(!should_cache(&Err(PriceEstimationError::EstimatorInternal)));
    assert!(!should_cache(&Err(PriceEstimationError::ProtocolInternal)));
}
