use coinsignal::duplicate_trade;
use coinsignal::Candlestick;
use coinsignal::MarketKind;
use coinsignal::PriceCache;
use coinsignal::Publisher;
use coinsignal::QuoteResolver;
use coinsignal::Side;
use coinsignal::Subscriber;
use coinsignal::TradeEvent;
use coinsignal::PRICE_SCALE;

fn bucket() -> Candlestick {
    Candlestick::new(
        "binance".to_owned(),
        MarketKind::Spot,
        "BTCUSDT".to_owned(),
        "BTC/USDT".to_owned(),
        60_000,
        60_000,
    )
}

fn trade(id: &str, ts: i64, price_units: u64) -> TradeEvent {
    TradeEvent {
        exchange: "binance".to_owned(),
        market: MarketKind::Spot,
        symbol: "BTCUSDT".to_owned(),
        pair: "BTC/USDT".to_owned(),
        side: Side::Buy,
        price: price_units * PRICE_SCALE,
        quantity: 1 * PRICE_SCALE,
        volume: 0,
        timestamp: ts,
        trade_id: id.to_owned(),
    }
}

#[test]
fn append_admits_in_window_trades() {
    let mut b = bucket();
    assert!(b.append(&trade("a", 0, 100)));
    assert!(b.append(&trade("b", 59_999, 101)));
    assert_eq!(b.len(), 2);
}

#[test]
fn append_rejects_out_of_window_trades() {
    let mut b = bucket();
    assert!(!b.append(&trade("a", 60_000, 100)));
    assert!(!b.append(&trade("b", -1, 100)));
    assert_eq!(b.len(), 0);
}

#[test]
fn append_rejects_other_instruments() {
    let mut b = bucket();
    let mut other = trade("a", 1000, 100);
    other.symbol = "ETHUSDT".to_owned();
    other.pair = "ETH/USDT".to_owned();
    assert!(!b.append(&other));
    let mut wrong_market = trade("b", 1000, 100);
    wrong_market.market = MarketKind::LinearSwap;
    assert!(!b.append(&wrong_market));
}

#[test]
fn append_deduplicates_by_fingerprint() {
    let mut b = bucket();
    let t = trade("a", 1000, 100);
    assert!(b.append(&t));
    assert!(!b.append(&duplicate_trade(&t)));
    // the same id with a different price is a different event
    let mut t2 = trade("a", 1000, 100);
    t2.price = 101 * PRICE_SCALE;
    assert!(b.append(&t2));
    assert_eq!(b.len(), 2);
}

#[test]
fn append_rejects_degenerate_trades() {
    let mut b = bucket();
    let mut zero_price = trade("a", 1000, 100);
    zero_price.price = 0;
    assert!(!b.append(&zero_price));
    let mut zero_qty = trade("b", 1000, 100);
    zero_qty.quantity = 0;
    assert!(!b.append(&zero_qty));
}

#[test]
fn empty_bucket_finalizes_to_nothing() {
    let resolver = QuoteResolver::new_default();
    let mut prices = PriceCache::new(Vec::new());
    prices.set_price("BTC", 50_000 * PRICE_SCALE);
    let b = bucket();
    assert!(b.finalize(&resolver, &prices).is_none());
}

#[test]
fn bucket_finalizes_to_its_bar() {
    let resolver = QuoteResolver::new_default();
    let mut prices = PriceCache::new(Vec::new());
    prices.set_price("BTC", 50_000 * PRICE_SCALE);
    let mut b = bucket();
    b.append(&trade("a", 1000, 100));
    b.append(&trade("b", 2000, 110));
    let bar = b.finalize(&resolver, &prices).unwrap();
    assert_eq!(bar.open, 100 * PRICE_SCALE);
    assert_eq!(bar.close, 110 * PRICE_SCALE);
    assert_eq!(bar.count, 2);
    assert_eq!(bar.timestamp, 60_000);
    assert_eq!(bar.bar_size, 60_000);
}

#[test]
fn unpriced_quote_finalizes_to_nothing() {
    let resolver = QuoteResolver::new_default();
    let prices = PriceCache::new(Vec::new());
    let mut b = Candlestick::new(
        "binance".to_owned(),
        MarketKind::Spot,
        "XYZETH".to_owned(),
        "XYZ/ETH".to_owned(),
        60_000,
        60_000,
    );
    let mut t = trade("a", 1000, 100);
    t.symbol = "XYZETH".to_owned();
    t.pair = "XYZ/ETH".to_owned();
    assert!(b.append(&t));
    assert!(b.finalize(&resolver, &prices).is_none());
}

#[test]
fn pubsub_endpoints_keep_their_configuration() {
    let publisher = Publisher::new("redis://localhost:6379");
    assert_eq!(publisher.url(), "redis://localhost:6379");
    let subscriber = Subscriber::new("redis://localhost:6379", "coinsignal:trade");
    assert_eq!(subscriber.url(), "redis://localhost:6379");
    assert_eq!(subscriber.channel(), "coinsignal:trade");
}
