use coinsignal::extract_base;
use coinsignal::extract_quote;
use coinsignal::PriceCache;
use coinsignal::QuoteResolver;
use coinsignal::PRICE_SCALE;

#[test]
fn quote_of_well_formed_pair() {
    assert_eq!(extract_quote("BTC/USDT"), Some("USDT"));
    assert_eq!(extract_base("BTC/USDT"), Some("BTC"));
    assert_eq!(extract_quote("ETH/BTC"), Some("BTC"));
}

#[test]
fn quote_of_malformed_pair() {
    assert_eq!(extract_quote("BTCUSDT"), None);
    assert_eq!(extract_base(""), None);
}

#[test]
fn quote_of_takes_first_separator() {
    assert_eq!(extract_quote("A/B/C"), Some("B/C"));
    assert_eq!(extract_base("A/B/C"), Some("A"));
}

#[test]
fn stablecoins_are_pegged() {
    let resolver = QuoteResolver::new_default();
    let prices = PriceCache::new(Vec::new());
    assert!(resolver.is_stable("USDT"));
    assert!(resolver.is_stable("USD"));
    assert!(resolver.is_stable("DAI"));
    assert!(!resolver.is_stable("BTC"));
    assert_eq!(resolver.resolve_price("USDT", &prices), Some(PRICE_SCALE));
    assert_eq!(resolver.resolve_price("BTC", &prices), None);
}

#[test]
fn cached_currency_resolves() {
    let resolver = QuoteResolver::new_default();
    let mut prices = PriceCache::new(Vec::new());
    prices.set_price("ETH", 4000 * PRICE_SCALE);
    assert_eq!(resolver.resolve_price("ETH", &prices), Some(4000 * PRICE_SCALE));
    assert!(resolver.is_good("ETH", &prices));
    assert!(!resolver.is_good("ABC", &prices));
}

#[test]
fn convertibility_of_pairs() {
    let resolver = QuoteResolver::new_default();
    let prices = PriceCache::new(Vec::new());
    // a stable quote is always convertible, even with an empty table
    assert!(resolver.is_convertible("BTC/USDT", &prices));
    // an unknown quote with no cache entry is not
    assert!(!resolver.is_convertible("XYZ/ABC", &prices));
    // a malformed pair is never convertible
    assert!(!resolver.is_convertible("BTCUSDT", &prices));
}
