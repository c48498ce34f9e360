use coinsignal::Disposition;
use coinsignal::Engine;
use coinsignal::MarketKind;
use coinsignal::PriceCache;
use coinsignal::QuoteResolver;
use coinsignal::Side;
use coinsignal::StepClass;
use coinsignal::TradeEvent;
use coinsignal::PRICE_SCALE;

fn trade(pair: &str, id: &str, ts: i64, price_units: u64, side: Side) -> TradeEvent {
    let symbol: String = pair.chars().filter(|c| *c != '/').collect();
    TradeEvent {
        exchange: "binance".to_owned(),
        market: MarketKind::Spot,
        symbol,
        pair: pair.to_owned(),
        side,
        price: price_units * PRICE_SCALE,
        quantity: 1 * PRICE_SCALE,
        volume: 0,
        timestamp: ts,
        trade_id: id.to_owned(),
    }
}

fn engine() -> Engine {
    let resolver = QuoteResolver::new_default();
    let mut prices = PriceCache::new(Vec::new());
    prices.set_price("BTC", 50_000 * PRICE_SCALE);
    Engine::new(resolver, prices, 3000)
}

#[test]
fn stable_quote_is_always_convertible() {
    let mut e = engine();
    let (disposition, bars) = e.on_trade(&trade("BTC/USDT", "a", 1000, 100, Side::Buy));
    assert_eq!(disposition, Disposition::Processed(StepClass::Current, true));
    assert!(bars.is_empty());
}

#[test]
fn unknown_quote_never_reaches_a_bucket() {
    let mut e = engine();
    let (disposition, bars) = e.on_trade(&trade("XYZ/ABC", "a", 1000, 100, Side::Buy));
    assert_eq!(disposition, Disposition::NotConvertible);
    assert!(bars.is_empty());
    // the drop left no bucket behind: rotating later emits nothing for it
    let (_, bars) = e.on_trade(&trade("BTC/USDT", "b", 60_000, 100, Side::Buy));
    assert!(bars.is_empty());
}

#[test]
fn malformed_pair_is_dropped() {
    let mut e = engine();
    let (disposition, bars) = e.on_trade(&trade("BTCUSDT", "a", 1000, 100, Side::Buy));
    assert_eq!(disposition, Disposition::MalformedPair);
    assert!(bars.is_empty());
}

#[test]
fn three_trades_one_bar() {
    let mut e = engine();
    e.on_trade(&trade("BTC/USDT", "a", 1000, 100, Side::Buy));
    e.on_trade(&trade("BTC/USDT", "b", 2000, 110, Side::Sell));
    e.on_trade(&trade("BTC/USDT", "c", 2999, 105, Side::Buy));
    let (_, bars) = e.on_trade(&trade("BTC/USDT", "d", 60_000, 100, Side::Buy));
    assert_eq!(bars.len(), 1);
    let bar = &bars[0];
    assert_eq!(bar.exchange, "binance");
    assert_eq!(bar.pair, "BTC/USDT");
    assert_eq!(bar.timestamp, 3000);
    assert_eq!(bar.bar_size, 3000);
    assert_eq!(bar.open, 100 * PRICE_SCALE);
    assert_eq!(bar.close, 105 * PRICE_SCALE);
    assert_eq!(bar.high, 110 * PRICE_SCALE);
    assert_eq!(bar.low, 100 * PRICE_SCALE);
    assert_eq!(bar.mean, 105 * PRICE_SCALE);
    assert_eq!(bar.median, 105 * PRICE_SCALE);
    assert_eq!(bar.volume, 3 * PRICE_SCALE as u128);
    assert_eq!(bar.count, 3);
    assert_eq!(bar.count_buy, 2);
    assert_eq!(bar.count_sell, 1);
}

#[test]
fn refeeding_a_trade_leaves_the_bar_alone() {
    let mut one = engine();
    let mut twice = engine();
    let t = trade("BTC/USDT", "a", 1000, 100, Side::Buy);
    one.on_trade(&t);
    twice.on_trade(&t.clone());
    twice.on_trade(&t.clone());
    let flush = trade("BTC/USDT", "z", 60_000, 100, Side::Buy);
    let (_, bars_one) = one.on_trade(&flush.clone());
    let (_, bars_twice) = twice.on_trade(&flush);
    assert_eq!(bars_one.len(), 1);
    assert_eq!(bars_twice.len(), 1);
    assert_eq!(bars_one[0].count, bars_twice[0].count);
    assert_eq!(bars_one[0].volume, bars_twice[0].volume);
    assert_eq!(bars_one[0].vwap, bars_twice[0].vwap);
}

#[test]
fn bucket_of_unpriceable_btc_yields_no_bar() {
    // no BTC price in the table: quote ETH resolves while the bucket is
    // open, but finalize cannot convert to BTC and yields nothing
    let resolver = QuoteResolver::new_default();
    let mut prices = PriceCache::new(Vec::new());
    prices.set_price("ETH", 4000 * PRICE_SCALE);
    let mut e = Engine::new(resolver, prices, 3000);
    let mut t = trade("XYZ/ETH", "a", 1000, 100, Side::Buy);
    t.market = MarketKind::Spot;
    let (disposition, _) = e.on_trade(&t);
    assert_eq!(disposition, Disposition::Processed(StepClass::Current, true));
    let (_, bars) = e.on_trade(&trade("XYZ/ETH", "z", 60_000, 100, Side::Buy));
    assert!(bars.is_empty());
}

#[test]
fn trade_prices_feed_the_table() {
    let mut e = engine();
    // a spot trade quoted in USDT prices its base asset
    assert!(e.on_trade_price(&trade("ETH/USDT", "a", 1000, 4000, Side::Buy)));
    assert_eq!(e.prices.get_price("ETH"), Some(4000 * PRICE_SCALE));
    // a second sample blends: 0.9 * 4000 + 0.1 * 5000 = 4100
    assert!(e.on_trade_price(&trade("ETH/USDT", "b", 2000, 5000, Side::Buy)));
    assert_eq!(e.prices.get_price("ETH"), Some(4100 * PRICE_SCALE));
    // a non-USD quote does not feed the table
    assert!(!e.on_trade_price(&trade("XYZ/ETH", "c", 3000, 2, Side::Buy)));
    assert_eq!(e.prices.get_price("XYZ"), None);
    // futures do not feed the table
    let mut fut = trade("SOL/USDT", "d", 4000, 150, Side::Buy);
    fut.market = MarketKind::LinearFuture;
    assert!(!e.on_trade_price(&fut));
    assert_eq!(e.prices.get_price("SOL"), None);
}

#[test]
fn readiness_gates_on_reference_currencies() {
    let resolver = QuoteResolver::new_default();
    let prices = PriceCache::new(vec!["BTC".to_owned()]);
    let mut e = Engine::new(resolver, prices, 3000);
    assert!(!e.is_ready());
    e.on_price_sample("BTC", 50_000 * PRICE_SCALE);
    assert!(e.is_ready());
}

#[test]
fn snapshot_merge_updates_the_table() {
    let mut e = engine();
    e.on_price_snapshot(&vec![
        ("ETH".to_owned(), 4000 * PRICE_SCALE),
        ("SOL".to_owned(), 150 * PRICE_SCALE),
    ]);
    assert_eq!(e.prices.get_price("ETH"), Some(4000 * PRICE_SCALE));
    assert_eq!(e.prices.get_price("SOL"), Some(150 * PRICE_SCALE));
}
