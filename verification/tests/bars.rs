use coinsignal::aggregate;
use coinsignal::build_candlestick;
use coinsignal::MarketKind;
use coinsignal::Side;
use coinsignal::TradeEvent;
use coinsignal::PRICE_SCALE;

fn trade(id: &str, ts: i64, price_units: u64, qty_units: u64, side: Side) -> TradeEvent {
    TradeEvent {
        exchange: "binance".to_owned(),
        market: MarketKind::Spot,
        symbol: "BTCUSDT".to_owned(),
        pair: "BTC/USDT".to_owned(),
        side,
        price: price_units * PRICE_SCALE,
        quantity: qty_units * PRICE_SCALE,
        volume: 0,
        timestamp: ts,
        trade_id: id.to_owned(),
    }
}

#[test]
fn median_even_count() {
    let mut prices: Vec<u64> = vec![
        1 * PRICE_SCALE,
        2 * PRICE_SCALE,
        3 * PRICE_SCALE,
        4 * PRICE_SCALE,
    ];
    let stats = aggregate(&mut prices);
    assert_eq!(stats.median, 2_500_000);
    assert_eq!(stats.mean, 2_500_000);
    assert_eq!(stats.low, 1 * PRICE_SCALE);
    assert_eq!(stats.high, 4 * PRICE_SCALE);
}

#[test]
fn median_odd_count() {
    let mut prices: Vec<u64> = vec![1 * PRICE_SCALE, 2 * PRICE_SCALE, 3 * PRICE_SCALE];
    let stats = aggregate(&mut prices);
    assert_eq!(stats.median, 2 * PRICE_SCALE);
    assert_eq!(stats.mean, 2 * PRICE_SCALE);
}

#[test]
fn aggregate_open_close_use_arrival_positions() {
    // open and close come from the series as given, not from the sort
    let mut prices: Vec<u64> = vec![3 * PRICE_SCALE, 1 * PRICE_SCALE, 2 * PRICE_SCALE];
    let stats = aggregate(&mut prices);
    assert_eq!(stats.open, 3 * PRICE_SCALE);
    assert_eq!(stats.close, 2 * PRICE_SCALE);
    assert_eq!(stats.low, 1 * PRICE_SCALE);
    assert_eq!(stats.high, 3 * PRICE_SCALE);
}

#[test]
fn bar_of_three_trades() {
    let trades = vec![
        trade("a", 1000, 100, 1, Side::Buy),
        trade("b", 2000, 110, 1, Side::Sell),
        trade("c", 2999, 105, 1, Side::Buy),
    ];
    // quote is the stablecoin USDT (1.0), BTC at 50 000 USD
    let quote_price = PRICE_SCALE;
    let btc_price = 50_000 * PRICE_SCALE;
    let bar = build_candlestick(3000, 3000, trades, quote_price, btc_price);
    assert_eq!(bar.timestamp, 3000);
    assert_eq!(bar.timestamp_start, 1000);
    assert_eq!(bar.open, 100 * PRICE_SCALE);
    assert_eq!(bar.close, 105 * PRICE_SCALE);
    assert_eq!(bar.high, 110 * PRICE_SCALE);
    assert_eq!(bar.low, 100 * PRICE_SCALE);
    assert_eq!(bar.mean, 105 * PRICE_SCALE);
    assert_eq!(bar.median, 105 * PRICE_SCALE);
    assert_eq!(bar.volume, 3 * PRICE_SCALE as u128);
    assert_eq!(bar.volume_buy, 2 * PRICE_SCALE as u128);
    assert_eq!(bar.volume_sell, 1 * PRICE_SCALE as u128);
    assert_eq!(bar.count, 3);
    assert_eq!(bar.count_buy, 2);
    assert_eq!(bar.count_sell, 1);
    // quote volume: 100 + 110 + 105 whole units
    assert_eq!(bar.volume_quote, 315 * PRICE_SCALE as u128);
    assert_eq!(bar.volume_usd, 315 * PRICE_SCALE as u128);
    // 315 USD at 50 000 USD per BTC: 0.0063 BTC
    assert_eq!(bar.volume_btc, 6300);
    assert_eq!(bar.vwap, 105 * PRICE_SCALE as u128);
    assert_eq!(bar.vwap_usd, 105 * PRICE_SCALE as u128);
    // count = count_buy + count_sell and low <= open, close <= high
    assert_eq!(bar.count, bar.count_buy + bar.count_sell);
    assert!(bar.low <= bar.open && bar.open <= bar.high);
    assert!(bar.low <= bar.close && bar.close <= bar.high);
}

#[test]
fn per_side_volumes_add_up() {
    let trades = vec![
        trade("a", 1000, 100, 2, Side::Buy),
        trade("b", 2000, 110, 1, Side::Sell),
        trade("c", 2500, 90, 3, Side::Buy),
        trade("d", 2600, 95, 4, Side::Sell),
    ];
    let bar = build_candlestick(3000, 3000, trades, PRICE_SCALE, 50_000 * PRICE_SCALE);
    assert_eq!(bar.volume, bar.volume_buy + bar.volume_sell);
    assert_eq!(bar.volume_quote, bar.volume_quote_buy + bar.volume_quote_sell);
    assert_eq!(bar.volume_usd, bar.volume_usd_buy + bar.volume_usd_sell);
    assert_eq!(bar.count, bar.count_buy + bar.count_sell);
    assert_eq!(bar.volume_buy, 5 * PRICE_SCALE as u128);
    assert_eq!(bar.volume_sell, 5 * PRICE_SCALE as u128);
    // quote volume per side: buy 100*2 + 90*3 = 470, sell 110 + 95*4 = 490
    assert_eq!(bar.volume_quote_buy, 470 * PRICE_SCALE as u128);
    assert_eq!(bar.volume_quote_sell, 490 * PRICE_SCALE as u128);
}

#[test]
fn btc_volumes_convert_through_usd() {
    let trades = vec![trade("a", 1000, 100, 1, Side::Buy)];
    // quote ETH at 2000 USD, BTC at 50 000 USD
    let bar = build_candlestick(
        3000,
        3000,
        trades,
        2000 * PRICE_SCALE,
        50_000 * PRICE_SCALE,
    );
    // 100 ETH-quote units = 200 000 USD = 4 BTC
    assert_eq!(bar.volume_quote, 100 * PRICE_SCALE as u128);
    assert_eq!(bar.volume_usd, 200_000 * PRICE_SCALE as u128);
    assert_eq!(bar.volume_btc, 4 * PRICE_SCALE as u128);
    assert_eq!(bar.vwap_btc, 4 * PRICE_SCALE as u128);
}

#[test]
fn bar_sorts_by_timestamp_then_trade_id() {
    // equal timestamps: the lexicographically smaller trade id opens
    let trades = vec![
        trade("z", 1000, 100, 1, Side::Buy),
        trade("a", 1000, 200, 1, Side::Buy),
        trade("m", 2000, 150, 1, Side::Buy),
    ];
    let bar = build_candlestick(3000, 3000, trades, PRICE_SCALE, 50_000 * PRICE_SCALE);
    assert_eq!(bar.open, 200 * PRICE_SCALE);
    assert_eq!(bar.close, 150 * PRICE_SCALE);
}

#[test]
fn bar_is_order_independent() {
    let a = trade("a", 1000, 100, 2, Side::Buy);
    let b = trade("b", 2000, 110, 1, Side::Sell);
    let c = trade("c", 2500, 90, 3, Side::Buy);
    let one = build_candlestick(
        3000,
        3000,
        vec![a.clone(), b.clone(), c.clone()],
        PRICE_SCALE,
        50_000 * PRICE_SCALE,
    );
    let other = build_candlestick(
        3000,
        3000,
        vec![c, a, b],
        PRICE_SCALE,
        50_000 * PRICE_SCALE,
    );
    assert_eq!(one.open, other.open);
    assert_eq!(one.close, other.close);
    assert_eq!(one.high, other.high);
    assert_eq!(one.low, other.low);
    assert_eq!(one.mean, other.mean);
    assert_eq!(one.median, other.median);
    assert_eq!(one.volume, other.volume);
    assert_eq!(one.volume_quote, other.volume_quote);
    assert_eq!(one.volume_usd, other.volume_usd);
    assert_eq!(one.volume_btc, other.volume_btc);
    assert_eq!(one.vwap, other.vwap);
    assert_eq!(one.count, other.count);
    assert_eq!(one.count_buy, other.count_buy);
    assert_eq!(one.count_sell, other.count_sell);
    assert_eq!(one.timestamp_start, other.timestamp_start);
}
