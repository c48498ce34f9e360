use coinsignal::default_reference_currencies;
use coinsignal::PriceCache;
use coinsignal::PRICE_SCALE;

#[test]
fn first_sample_seeds_the_entry() {
    let mut cache = PriceCache::new(Vec::new());
    assert_eq!(cache.get_price("BTC"), None);
    assert!(cache.update("BTC", 100 * PRICE_SCALE));
    assert_eq!(cache.get_price("BTC"), Some(100 * PRICE_SCALE));
}

#[test]
fn later_samples_blend_toward_history() {
    let mut cache = PriceCache::new(Vec::new());
    cache.update("BTC", 100 * PRICE_SCALE);
    cache.update("BTC", 200 * PRICE_SCALE);
    // 0.9 * 100 + 0.1 * 200 = 110
    assert_eq!(cache.get_price("BTC"), Some(110 * PRICE_SCALE));
    cache.update("BTC", 110 * PRICE_SCALE);
    assert_eq!(cache.get_price("BTC"), Some(110 * PRICE_SCALE));
}

#[test]
fn ema_rounds_down() {
    let mut cache = PriceCache::new(Vec::new());
    cache.update("X", 1);
    cache.update("X", 2);
    // (9 * 1 + 2) / 10 = 1.1, stored as 1
    assert_eq!(cache.get_price("X"), Some(1));
}

#[test]
fn out_of_range_samples_are_dropped() {
    let mut cache = PriceCache::new(Vec::new());
    assert!(!cache.update("BTC", 0));
    assert_eq!(cache.get_price("BTC"), None);
    assert!(!cache.set_price("BTC", 0));
    cache.set_price("BTC", 5 * PRICE_SCALE);
    assert!(!cache.update("BTC", u64::MAX));
    assert_eq!(cache.get_price("BTC"), Some(5 * PRICE_SCALE));
}

#[test]
fn merge_is_last_write_wins() {
    let mut cache = PriceCache::new(Vec::new());
    cache.set_price("BTC", 1 * PRICE_SCALE);
    let snapshot = vec![
        ("BTC".to_owned(), 2 * PRICE_SCALE),
        ("ETH".to_owned(), 3 * PRICE_SCALE),
        ("BTC".to_owned(), 4 * PRICE_SCALE),
        ("BAD".to_owned(), 0),
    ];
    cache.merge(&snapshot);
    assert_eq!(cache.get_price("BTC"), Some(4 * PRICE_SCALE));
    assert_eq!(cache.get_price("ETH"), Some(3 * PRICE_SCALE));
    // the invalid entry was dropped, not stored
    assert_eq!(cache.get_price("BAD"), None);
}

#[test]
fn merge_never_deletes() {
    let mut cache = PriceCache::new(Vec::new());
    cache.set_price("DOT", 7 * PRICE_SCALE);
    cache.merge(&vec![("ETH".to_owned(), 3 * PRICE_SCALE)]);
    assert_eq!(cache.get_price("DOT"), Some(7 * PRICE_SCALE));
}

#[test]
fn readiness_waits_for_every_reference_currency() {
    let reference = vec!["BTC".to_owned(), "ETH".to_owned()];
    let mut cache = PriceCache::new(reference);
    assert!(!cache.is_ready());
    cache.set_price("BTC", 100 * PRICE_SCALE);
    assert!(!cache.is_ready());
    cache.set_price("ETH", 10 * PRICE_SCALE);
    assert!(cache.is_ready());
}

#[test]
fn empty_reference_set_is_ready_at_once() {
    let cache = PriceCache::new(Vec::new());
    assert!(cache.is_ready());
}

#[test]
fn default_reference_set_names_the_liquid_coins() {
    let reference = default_reference_currencies();
    assert_eq!(reference.len(), 15);
    assert!(reference.iter().any(|c| c == "BTC"));
    assert!(reference.iter().any(|c| c == "ETH"));
    assert!(reference.iter().any(|c| c == "BCH"));
}
