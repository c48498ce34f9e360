use coinsignal::Aggregator;
use coinsignal::MarketKind;
use coinsignal::PriceCache;
use coinsignal::QuoteResolver;
use coinsignal::Side;
use coinsignal::StepClass;
use coinsignal::TradeEvent;
use coinsignal::PRICE_SCALE;

fn trade(id: &str, ts: i64, price_units: u64) -> TradeEvent {
    TradeEvent {
        exchange: "binance".to_owned(),
        market: MarketKind::Spot,
        symbol: "BTCUSDT".to_owned(),
        pair: "BTC/USDT".to_owned(),
        side: Side::Buy,
        price: price_units * PRICE_SCALE,
        quantity: 1 * PRICE_SCALE,
        volume: 0,
        timestamp: ts,
        trade_id: id.to_owned(),
    }
}

fn setup() -> (QuoteResolver, PriceCache) {
    let resolver = QuoteResolver::new_default();
    let mut prices = PriceCache::new(Vec::new());
    prices.set_price("BTC", 50_000 * PRICE_SCALE);
    (resolver, prices)
}

#[test]
fn first_trade_opens_current_window() {
    let (resolver, prices) = setup();
    let mut agg = Aggregator::new(3000);
    let (class, admitted, bars) = agg.on_trade(&trade("a", 10_000, 100), &resolver, &prices);
    assert_eq!(class, StepClass::Current);
    assert!(admitted);
    assert!(bars.is_empty());
}

#[test]
fn lateness_boundaries() {
    let (resolver, prices) = setup();
    let mut agg = Aggregator::new(3000);
    // windows align to the first trade: previous [6000, 9000), current [9000, 12000)
    let (class, _, _) = agg.on_trade(&trade("a", 10_000, 100), &resolver, &prices);
    assert_eq!(class, StepClass::Current);
    // a trade exactly at prev_begin still enters the previous bucket
    let (class, admitted, _) = agg.on_trade(&trade("b", 6000, 101), &resolver, &prices);
    assert_eq!(class, StepClass::Previous);
    assert!(admitted);
    // one millisecond older has expired
    let (class, admitted, _) = agg.on_trade(&trade("c", 5999, 102), &resolver, &prices);
    assert_eq!(class, StepClass::Expired);
    assert!(!admitted);
    // a trade exactly at cur_end rotates instead of joining the window
    let (class, admitted, _) = agg.on_trade(&trade("d", 12_000, 103), &resolver, &prices);
    assert_eq!(class, StepClass::Rotation);
    assert!(admitted);
}

#[test]
fn rotation_emits_previous_window() {
    let (resolver, prices) = setup();
    let mut agg = Aggregator::new(3000);
    // all three fall in the current window [0, 3000)
    agg.on_trade(&trade("a", 1000, 100), &resolver, &prices);
    agg.on_trade(&trade("b", 2000, 110), &resolver, &prices);
    agg.on_trade(&trade("c", 2999, 105), &resolver, &prices);
    // single-interval advance: the bucket moves to previous, nothing emitted
    let (class, _, bars) = agg.on_trade(&trade("d", 3000, 120), &resolver, &prices);
    assert_eq!(class, StepClass::Rotation);
    assert!(bars.is_empty());
    // next advance closes it: the bar of the first window comes out
    let (class, _, bars) = agg.on_trade(&trade("e", 6000, 130), &resolver, &prices);
    assert_eq!(class, StepClass::Rotation);
    assert_eq!(bars.len(), 1);
    let bar = &bars[0];
    assert_eq!(bar.timestamp, 3000);
    assert_eq!(bar.open, 100 * PRICE_SCALE);
    assert_eq!(bar.close, 105 * PRICE_SCALE);
    assert_eq!(bar.count, 3);
}

#[test]
fn far_jump_flushes_both_windows() {
    let (resolver, prices) = setup();
    let mut agg = Aggregator::new(3000);
    agg.on_trade(&trade("a", 1000, 100), &resolver, &prices);
    agg.on_trade(&trade("b", 3500, 110), &resolver, &prices);
    // jumping two intervals ahead finalizes previous and current at once;
    // emission order follows window order
    let (class, _, bars) = agg.on_trade(&trade("c", 60_000, 120), &resolver, &prices);
    assert_eq!(class, StepClass::Rotation);
    assert_eq!(bars.len(), 2);
    assert_eq!(bars[0].timestamp, 3000);
    assert_eq!(bars[0].open, 100 * PRICE_SCALE);
    assert_eq!(bars[1].timestamp, 6000);
    assert_eq!(bars[1].open, 110 * PRICE_SCALE);
}

#[test]
fn duplicate_trade_is_dropped() {
    let (resolver, prices) = setup();
    let mut agg = Aggregator::new(3000);
    let t = trade("a", 1000, 100);
    let (_, first, _) = agg.on_trade(&t, &resolver, &prices);
    assert!(first);
    let (_, second, _) = agg.on_trade(&t.clone(), &resolver, &prices);
    assert!(!second);
    // the duplicate changed nothing: the eventual bar counts one trade
    let (_, _, bars) = agg.on_trade(&trade("z", 60_000, 120), &resolver, &prices);
    assert_eq!(bars.len(), 1);
    assert_eq!(bars[0].count, 1);
    assert_eq!(bars[0].volume, 1 * PRICE_SCALE as u128);
}

#[test]
fn late_arrival_joins_the_previous_bucket() {
    let (resolver, prices) = setup();
    let mut agg = Aggregator::new(3000);
    agg.on_trade(&trade("a", 1000, 100), &resolver, &prices);
    // rotate: the bucket of [0, 3000) becomes the previous one
    agg.on_trade(&trade("b", 3000, 110), &resolver, &prices);
    // a late print for the old window still lands in that bucket
    let (class, admitted, _) = agg.on_trade(&trade("c", 500, 90), &resolver, &prices);
    assert_eq!(class, StepClass::Previous);
    assert!(admitted);
    let (_, _, bars) = agg.on_trade(&trade("z", 60_000, 120), &resolver, &prices);
    assert_eq!(bars.len(), 2);
    assert_eq!(bars[0].timestamp, 3000);
    assert_eq!(bars[0].count, 2);
    assert_eq!(bars[0].open, 90 * PRICE_SCALE);
    assert_eq!(bars[0].close, 100 * PRICE_SCALE);
}

#[test]
fn invalid_trade_is_dropped() {
    let (resolver, prices) = setup();
    let mut agg = Aggregator::new(3000);
    let mut t = trade("a", 1000, 100);
    t.price = 0;
    let (class, admitted, bars) = agg.on_trade(&t, &resolver, &prices);
    assert_eq!(class, StepClass::Invalid);
    assert!(!admitted);
    assert!(bars.is_empty());
}

#[test]
fn instruments_rotate_together_but_bucket_separately() {
    let (resolver, prices) = setup();
    let mut agg = Aggregator::new(3000);
    let mut eth = trade("e1", 1000, 3000);
    eth.symbol = "ETHUSDT".to_owned();
    eth.pair = "ETH/USDT".to_owned();
    agg.on_trade(&trade("b1", 1000, 100), &resolver, &prices);
    agg.on_trade(&eth, &resolver, &prices);
    let (_, _, bars) = agg.on_trade(&trade("z", 60_000, 120), &resolver, &prices);
    assert_eq!(bars.len(), 2);
    assert_eq!(bars[0].pair, "BTC/USDT");
    assert_eq!(bars[1].pair, "ETH/USDT");
    assert_eq!(bars[0].count, 1);
    assert_eq!(bars[1].count, 1);
}
