use currency_converter::country::{CountryCache, ScriptedResolver};
use currency_converter::exchange::{Rate, RateSnapshot, RatesCache, ScriptedRateFetcher};
use currency_converter::service::{apply_rate, ConversionError, ConversionRequest, CurrencyService,
    UpstreamEntity};
use currency_converter::text::normalize;

fn codes(list: &[&str]) -> Vec<String> {
    list.iter().map(|s| s.to_string()).collect()
}

fn table(expiry_unix: u64, entries: &[(&str, u64)]) -> RateSnapshot {
    RateSnapshot {
        expiry_unix,
        rates: entries.iter().map(|(c, v)| (c.to_string(), *v)).collect(),
    }
}

#[test]
fn country_cache() {
    let mut cache = CountryCache::new();
    let mut resolver = ScriptedResolver::new(vec![
        Ok(Some(codes(&["HKD", "TWD", "CNY", "MOP"]))),
        Ok(Some(codes(&["EUR"]))),
    ]);
    // two distinct inputs yields two values in the cache
    cache.get_currency("china", &mut resolver).unwrap();
    cache.get_currency("china", &mut resolver).unwrap();
    cache.get_currency("france", &mut resolver).unwrap();
    assert_eq!(cache.entries.len(), 2);
}

#[test]
fn china_fixture_scenario() {
    let china = codes(&["HKD", "TWD", "CNY", "MOP"]);
    let mut cache = CountryCache::new();
    let mut resolver =
        ScriptedResolver::new(vec![Ok(Some(china.clone())), Ok(Some(codes(&["EUR"])))]);
    let first = cache.get_currency("china", &mut resolver).unwrap().unwrap();
    assert_eq!(first, china);
    // the repeated resolution is a cache hit: same list, no second fetch
    let second = cache.get_currency("china", &mut resolver).unwrap().unwrap();
    assert_eq!(second, china);
    assert_eq!(resolver.count, 1);
    // a second country adds a second, distinct cache key
    cache.get_currency("france", &mut resolver).unwrap();
    assert_eq!(resolver.count, 2);
    assert_eq!(cache.entries.len(), 2);
}

#[test]
fn case_insensitive_cache_key() {
    let mut cache = CountryCache::new();
    let mut resolver = ScriptedResolver::new(vec![Ok(Some(codes(&["CNY"])))]);
    let first = cache.get_currency("China", &mut resolver).unwrap().unwrap();
    // the entry is stored under the folded key and answers any casing
    assert_eq!(cache.entries[0].0, "china");
    let second = cache.get_currency("CHINA", &mut resolver).unwrap().unwrap();
    assert_eq!(first, second);
    assert_eq!(resolver.count, 1);
    assert_eq!(cache.entries.len(), 1);
}

#[test]
fn unknown_country_is_not_cached() {
    let mut cache = CountryCache::new();
    let mut resolver =
        ScriptedResolver::new(vec![Ok(None), Ok(Some(codes(&["PEN"])))]);
    assert_eq!(cache.get_currency("peru", &mut resolver).unwrap(), None);
    assert_eq!(cache.entries.len(), 0);
    // the next lookup retries upstream and caches the found list
    let found = cache.get_currency("peru", &mut resolver).unwrap().unwrap();
    assert_eq!(found, codes(&["PEN"]));
    assert_eq!(resolver.count, 2);
    assert_eq!(cache.entries.len(), 1);
}

#[test]
fn failed_fetch_is_not_cached() {
    let mut cache = CountryCache::new();
    let mut resolver = ScriptedResolver::new(vec![Err("connection reset".to_string())]);
    let r = cache.get_currency("peru", &mut resolver);
    assert_eq!(r, Err("connection reset".to_string()));
    assert_eq!(cache.entries.len(), 0);
}

#[test]
fn stale_snapshot_triggers_one_refresh() {
    let mut cache = RatesCache::new();
    let mut fetcher = ScriptedRateFetcher::new(vec![
        Ok(table(100, &[("USD", 2), ("EUR", 4)])),
        Ok(table(200, &[("USD", 2), ("EUR", 6)])),
    ]);
    // empty cache: one refresh, answer from the downloaded table
    let r1 = cache.get_exchange_rate("USD", "EUR", 50, &mut fetcher).unwrap().unwrap();
    assert_eq!(fetcher.count, 1);
    assert_eq!((r1.num, r1.den), (4, 2));
    // still fresh at 99: answered from the snapshot, no refresh
    let r2 = cache.get_exchange_rate("USD", "EUR", 99, &mut fetcher).unwrap().unwrap();
    assert_eq!(fetcher.count, 1);
    assert_eq!((r2.num, r2.den), (4, 2));
    // at the expiry instant the snapshot is stale: exactly one refresh,
    // even though both codes were present in the old table
    let r3 = cache.get_exchange_rate("USD", "EUR", 100, &mut fetcher).unwrap().unwrap();
    assert_eq!(fetcher.count, 2);
    assert_eq!((r3.num, r3.den), (6, 2));
}

#[test]
fn missing_code_yields_no_rate() {
    let mut cache = RatesCache::new();
    let mut fetcher = ScriptedRateFetcher::new(vec![Ok(table(100, &[("USD", 2)]))]);
    let r = cache.get_exchange_rate("USD", "EUR", 0, &mut fetcher).unwrap();
    assert_eq!(r, None);
}

#[test]
fn malformed_table_is_rejected_and_not_installed() {
    let mut cache = RatesCache::new();
    let mut fetcher = ScriptedRateFetcher::new(vec![
        Ok(table(100, &[("USD", 2), ("XXX", 0)])),
    ]);
    let r = cache.get_exchange_rate("USD", "EUR", 0, &mut fetcher);
    assert!(r.is_err());
    assert!(cache.snapshot.is_none());
}

#[test]
fn cartesian_two_by_one() {
    let mut svc = CurrencyService::new(CountryCache::new(), RatesCache::new());
    let mut resolver = ScriptedResolver::new(vec![
        Ok(Some(codes(&["AAA", "BBB"]))),
        Ok(Some(codes(&["CCC"]))),
    ]);
    let mut fetcher = ScriptedRateFetcher::new(vec![
        Ok(table(1000, &[("AAA", 2), ("BBB", 4), ("CCC", 8)])),
    ]);
    let request = ConversionRequest {
        from: "arcadia".to_string(),
        to: "cydonia".to_string(),
        amount: 10,
    };
    let out = svc.convert(&request, &mut resolver, &mut fetcher, 0).unwrap();
    // exactly 2 results, in (fromCandidate, toCandidate) order
    assert_eq!(out.len(), 2);
    assert_eq!(out[0].from, "AAA");
    assert_eq!(out[0].to, "CCC");
    assert_eq!(out[0].amount, 40); // 10 * 8 / 2
    assert_eq!(out[1].from, "BBB");
    assert_eq!(out[1].to, "CCC");
    assert_eq!(out[1].amount, 20); // 10 * 8 / 4
    assert_eq!(fetcher.count, 1);
}

#[test]
fn all_or_nothing_batch() {
    let mut svc = CurrencyService::new(CountryCache::new(), RatesCache::new());
    let mut resolver = ScriptedResolver::new(vec![
        Ok(Some(codes(&["AAA"]))),
        Ok(Some(codes(&["XXX", "YYY", "ZZZ"]))),
    ]);
    // YYY is missing from the table, so the second of three pairs fails
    let mut fetcher = ScriptedRateFetcher::new(vec![
        Ok(table(1000, &[("AAA", 2), ("XXX", 4), ("ZZZ", 8)])),
    ]);
    let request = ConversionRequest {
        from: "arcadia".to_string(),
        to: "cydonia".to_string(),
        amount: 10,
    };
    let r = svc.convert(&request, &mut resolver, &mut fetcher, 0);
    // the whole batch aborts: an error and zero conversions, not one
    assert_eq!(
        r,
        Err(ConversionError::RateNotFound("AAA".to_string(), "YYY".to_string()))
    );
}

#[test]
fn unknown_country_aborts_before_rate_lookups() {
    let mut svc = CurrencyService::new(CountryCache::new(), RatesCache::new());
    let mut resolver = ScriptedResolver::new(vec![Ok(None), Ok(Some(codes(&["EUR"])))]);
    let mut fetcher = ScriptedRateFetcher::new(vec![Ok(table(1000, &[("EUR", 2)]))]);
    let request = ConversionRequest {
        from: "narnia".to_string(),
        to: "france".to_string(),
        amount: 5,
    };
    let r = svc.convert(&request, &mut resolver, &mut fetcher, 0);
    assert_eq!(r, Err(ConversionError::CountryNotFound("narnia".to_string())));
    // no rate work happened at all
    assert_eq!(fetcher.count, 0);
    assert!(svc.rates_cache.snapshot.is_none());
}

#[test]
fn upstream_failure_surfaces_as_upstream_error() {
    let mut svc = CurrencyService::new(CountryCache::new(), RatesCache::new());
    let mut resolver = ScriptedResolver::new(vec![Err("tls handshake failed".to_string())]);
    let mut fetcher = ScriptedRateFetcher::new(vec![]);
    let request = ConversionRequest {
        from: "arcadia".to_string(),
        to: "cydonia".to_string(),
        amount: 1,
    };
    let r = svc.convert(&request, &mut resolver, &mut fetcher, 0);
    // the error names the side whose resolution failed
    assert_eq!(
        r,
        Err(ConversionError::Upstream(
            UpstreamEntity::Country("arcadia".to_string()),
            "tls handshake failed".to_string(),
        ))
    );
}

#[test]
fn rate_phase_upstream_failure_names_the_pair() {
    let mut svc = CurrencyService::new(CountryCache::new(), RatesCache::new());
    let mut resolver = ScriptedResolver::new(vec![
        Ok(Some(codes(&["AAA"]))),
        Ok(Some(codes(&["CCC"]))),
    ]);
    let mut fetcher = ScriptedRateFetcher::new(vec![Err("timeout".to_string())]);
    let request = ConversionRequest {
        from: "arcadia".to_string(),
        to: "cydonia".to_string(),
        amount: 1,
    };
    let r = svc.convert(&request, &mut resolver, &mut fetcher, 0);
    assert_eq!(
        r,
        Err(ConversionError::Upstream(
            UpstreamEntity::Pair("AAA".to_string(), "CCC".to_string()),
            "timeout".to_string(),
        ))
    );
}

#[test]
fn status_codes_by_error_kind() {
    assert_eq!(ConversionError::BadRequest("bad json".to_string()).status_code(), 400);
    assert_eq!(ConversionError::CountryNotFound("narnia".to_string()).status_code(), 404);
    assert_eq!(
        ConversionError::RateNotFound("USD".to_string(), "EUR".to_string()).status_code(),
        404
    );
    assert_eq!(
        ConversionError::Upstream(UpstreamEntity::Country("narnia".to_string()), "boom".to_string())
            .status_code(),
        500
    );
}

#[test]
fn error_messages_name_the_failing_entity() {
    assert_eq!(
        ConversionError::CountryNotFound("narnia".to_string()).message(),
        "cannot find country: narnia"
    );
    assert_eq!(
        ConversionError::RateNotFound("USD".to_string(), "EUR".to_string()).message(),
        "cannot find exchange rate: USDEUR"
    );
    assert_eq!(ConversionError::BadRequest("bad json".to_string()).message(), "bad json");
    assert_eq!(
        ConversionError::Upstream(UpstreamEntity::Country("narnia".to_string()), "boom".to_string())
            .message(),
        "cannot find country: narnia"
    );
    assert_eq!(
        ConversionError::Upstream(
            UpstreamEntity::Pair("USD".to_string(), "EUR".to_string()),
            "boom".to_string(),
        )
        .message(),
        "cannot find exchange rate: USDEUR"
    );
}

#[test]
fn normalize_folds_ascii_only() {
    assert_eq!(normalize("ChInA"), "china");
    assert_eq!(normalize("MEXICO-1"), "mexico-1");
    // non-ASCII characters pass through unchanged
    assert_eq!(normalize("Çote"), "Çote");
    assert_eq!(normalize(""), "");
    // the neighbours of the ASCII uppercase range stay as they are
    assert_eq!(normalize("@[az"), "@[az");
}

#[test]
fn apply_rate_rounds_down() {
    assert_eq!(apply_rate(7, Rate { num: 3, den: 2 }), 10); // 21 / 2
    assert_eq!(apply_rate(10, Rate { num: 1, den: 3 }), 3);
    assert_eq!(apply_rate(0, Rate { num: 5, den: 1 }), 0);
    assert_eq!(apply_rate(u64::MAX, Rate { num: u64::MAX, den: 1 }), (u64::MAX as u128) * (u64::MAX as u128));
}

#[test]
fn repeated_conversion_reuses_both_caches() {
    let mut svc = CurrencyService::new(CountryCache::new(), RatesCache::new());
    let mut resolver = ScriptedResolver::new(vec![
        Ok(Some(codes(&["AAA"]))),
        Ok(Some(codes(&["CCC"]))),
    ]);
    let mut fetcher = ScriptedRateFetcher::new(vec![
        Ok(table(1000, &[("AAA", 2), ("CCC", 8)])),
    ]);
    let request = ConversionRequest {
        from: "arcadia".to_string(),
        to: "cydonia".to_string(),
        amount: 10,
    };
    let first = svc.convert(&request, &mut resolver, &mut fetcher, 0).unwrap();
    assert_eq!(resolver.count, 2);
    assert_eq!(fetcher.count, 1);
    // the second identical request is served from both caches alone
    let second = svc.convert(&request, &mut resolver, &mut fetcher, 5).unwrap();
    assert_eq!(resolver.count, 2);
    assert_eq!(fetcher.count, 1);
    assert_eq!(first, second);
}

#[test]
fn empty_code_list_yields_empty_batch() {
    let mut svc = CurrencyService::new(CountryCache::new(), RatesCache::new());
    let mut resolver = ScriptedResolver::new(vec![
        Ok(Some(Vec::new())),
        Ok(Some(codes(&["EUR"]))),
    ]);
    let mut fetcher = ScriptedRateFetcher::new(vec![]);
    let request = ConversionRequest {
        from: "arcadia".to_string(),
        to: "france".to_string(),
        amount: 3,
    };
    let out = svc.convert(&request, &mut resolver, &mut fetcher, 0).unwrap();
    assert!(out.is_empty());
    assert_eq!(fetcher.count, 0);
}
