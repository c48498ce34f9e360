//! The normalized trade record and the total order used to finalize bars.

use vstd::prelude::*;

verus! {

use crate::strings::chars_le;
use crate::strings::lemma_chars_le_antisymmetric;
use crate::strings::lemma_chars_le_reflexive;
use crate::strings::lemma_chars_le_total;
use crate::strings::lemma_chars_le_transitive;
use crate::strings::str_eq;
use crate::strings::str_le;
use crate::units::MAX_AMOUNT;
use crate::units::MAX_TIMESTAMP;
use vstd::relations::total_ordering;

/// Whether the aggressor of a trade bought or sold the base asset.
#[derive(Clone, Copy, PartialEq, Eq, Structural, Debug)]
pub enum Side {
    Buy,
    Sell,
}

/// The market a trading pair is listed on.
#[derive(Clone, Copy, PartialEq, Eq, Structural, Debug)]
pub enum MarketKind {
    Spot,
    LinearSwap,
    InverseSwap,
    LinearFuture,
    InverseFuture,
    Unknown,
}

/// One normalized trade. Prices, quantities and volumes are fixed-point
/// integers in [`crate::PRICE_SCALE`] units; the timestamp is in
/// milliseconds since the epoch.
#[derive(Clone, Debug)]
pub struct TradeEvent {
    pub exchange: String,
    pub market: MarketKind,
    pub symbol: String,
    pub pair: String,
    pub side: Side,
    pub price: u64,
    pub quantity: u64,
    pub volume: u64,
    pub timestamp: i64,
    pub trade_id: String,
}

/// The mathematical value of a [`TradeEvent`].
#[verifier::ext_equal]
pub ghost struct TradeView {
    pub exchange: Seq<char>,
    pub market: MarketKind,
    pub symbol: Seq<char>,
    pub pair: Seq<char>,
    pub side: Side,
    pub price: u64,
    pub quantity: u64,
    pub volume: u64,
    pub timestamp: i64,
    pub trade_id: Seq<char>,
}

impl View for TradeEvent {
    type V = TradeView;

    open spec fn view(&self) -> TradeView {
        TradeView {
            exchange: self.exchange@,
            market: self.market,
            symbol: self.symbol@,
            pair: self.pair@,
            side: self.side,
            price: self.price,
            quantity: self.quantity,
            volume: self.volume,
            timestamp: self.timestamp,
            trade_id: self.trade_id@,
        }
    }
}

/// A trade the engine will work with: price and quantity are positive,
/// every amount is at most [`MAX_AMOUNT`] units, and the timestamp is a
/// plausible epoch millisecond count. Anything else is a data error and is
/// dropped at admission.
pub open spec fn valid_trade(t: TradeView) -> bool {
    &&& 1 <= t.price <= MAX_AMOUNT
    &&& 1 <= t.quantity <= MAX_AMOUNT
    &&& 0 <= t.volume <= MAX_AMOUNT
    &&& 0 <= t.timestamp <= MAX_TIMESTAMP
}

/// Executable check for [`valid_trade`].
pub fn trade_is_valid(t: &TradeEvent) -> (r: bool)
    ensures
        r == valid_trade(t@),
{
    1 <= t.price && t.price <= MAX_AMOUNT && 1 <= t.quantity && t.quantity <= MAX_AMOUNT
        && t.volume <= MAX_AMOUNT && 0 <= t.timestamp && t.timestamp <= MAX_TIMESTAMP
}

/// The content fingerprint used for deduplication: two trades are the same
/// event exactly when these six fields agree. Transport-level envelopes and
/// float rendering play no part in it.
pub open spec fn same_fingerprint(a: TradeView, b: TradeView) -> bool {
    &&& a.timestamp == b.timestamp
    &&& a.trade_id == b.trade_id
    &&& a.price == b.price
    &&& a.quantity == b.quantity
    &&& a.volume == b.volume
    &&& a.side == b.side
}

/// Executable check for [`same_fingerprint`].
pub fn fingerprint_eq(a: &TradeEvent, b: &TradeEvent) -> (r: bool)
    ensures
        r == same_fingerprint(a@, b@),
{
    a.timestamp == b.timestamp && str_eq(a.trade_id.as_str(), b.trade_id.as_str())
        && a.price == b.price && a.quantity == b.quantity && a.volume == b.volume
        && a.side == b.side
}

/// Whether two trades belong to the same aggregation stream.
pub open spec fn same_instrument(a: TradeView, b: TradeView) -> bool {
    &&& a.exchange == b.exchange
    &&& a.market == b.market
    &&& a.symbol == b.symbol
    &&& a.pair == b.pair
}

pub open spec fn side_rank(s: Side) -> int {
    match s {
        Side::Buy => 0,
        Side::Sell => 1,
    }
}

pub open spec fn market_rank(m: MarketKind) -> int {
    match m {
        MarketKind::Spot => 0,
        MarketKind::LinearSwap => 1,
        MarketKind::InverseSwap => 2,
        MarketKind::LinearFuture => 3,
        MarketKind::InverseFuture => 4,
        MarketKind::Unknown => 5,
    }
}

/// The total order in which a finalized bucket's trades are laid out:
/// by timestamp, then trade id (lexicographic), then the remaining fields
/// so that any two distinct records are strictly ordered. The first and
/// last trades under this order define a bar's open and close.
pub open spec fn trade_le(a: TradeView, b: TradeView) -> bool {
    if a.timestamp != b.timestamp {
        a.timestamp < b.timestamp
    } else if a.trade_id != b.trade_id {
        chars_le(a.trade_id, b.trade_id)
    } else if a.price != b.price {
        a.price < b.price
    } else if a.quantity != b.quantity {
        a.quantity < b.quantity
    } else if a.volume != b.volume {
        a.volume < b.volume
    } else if a.side != b.side {
        side_rank(a.side) < side_rank(b.side)
    } else if a.exchange != b.exchange {
        chars_le(a.exchange, b.exchange)
    } else if a.symbol != b.symbol {
        chars_le(a.symbol, b.symbol)
    } else if a.pair != b.pair {
        chars_le(a.pair, b.pair)
    } else {
        market_rank(a.market) <= market_rank(b.market)
    }
}

/// [`trade_le`] as a first-class relation, for `Seq::sort_by`.
pub open spec fn trade_leq() -> spec_fn(TradeView, TradeView) -> bool {
    |a: TradeView, b: TradeView| trade_le(a, b)
}

proof fn lemma_trade_le_connected(a: TradeView, b: TradeView)
    ensures
        trade_le(a, b) || trade_le(b, a),
{
    lemma_chars_le_total(a.trade_id, b.trade_id);
    lemma_chars_le_total(a.exchange, b.exchange);
    lemma_chars_le_total(a.symbol, b.symbol);
    lemma_chars_le_total(a.pair, b.pair);
}

proof fn lemma_trade_le_antisymmetric(a: TradeView, b: TradeView)
    requires
        trade_le(a, b),
        trade_le(b, a),
    ensures
        a == b,
{
    assert(a.timestamp == b.timestamp);
    if a.trade_id != b.trade_id {
        lemma_chars_le_antisymmetric(a.trade_id, b.trade_id);
    }
    if a.exchange != b.exchange {
        lemma_chars_le_antisymmetric(a.exchange, b.exchange);
    }
    if a.symbol != b.symbol {
        lemma_chars_le_antisymmetric(a.symbol, b.symbol);
    }
    if a.pair != b.pair {
        lemma_chars_le_antisymmetric(a.pair, b.pair);
    }
    assert(a =~= b);
}

/// Transitivity of one lexicographic stage: from `chars_le` along the chain
/// either the outer sequences differ and are strictly ordered, or they are
/// equal and so is everything in between.
proof fn lemma_chars_stage(x: Seq<char>, y: Seq<char>, z: Seq<char>)
    requires
        x != y ==> chars_le(x, y),
        y != z ==> chars_le(y, z),
    ensures
        x != z ==> chars_le(x, z),
        x == z ==> x == y && y == z,
{
    lemma_chars_le_reflexive(x);
    lemma_chars_le_reflexive(y);
    lemma_chars_le_transitive(x, y, z);
    if x == z && (x != y || y != z) {
        lemma_chars_le_antisymmetric(x, y);
    }
}

proof fn lemma_trade_le_transitive(a: TradeView, b: TradeView, c: TradeView)
    requires
        trade_le(a, b),
        trade_le(b, c),
    ensures
        trade_le(a, c),
{
    assert(a.timestamp <= b.timestamp <= c.timestamp);
    if a.timestamp == c.timestamp {
        lemma_chars_stage(a.trade_id, b.trade_id, c.trade_id);
        if a.trade_id == c.trade_id {
            assert(a.price <= b.price <= c.price);
            if a.price == c.price {
                assert(a.quantity <= b.quantity <= c.quantity);
                if a.quantity == c.quantity {
                    assert(a.volume <= b.volume <= c.volume);
                    if a.volume == c.volume {
                        assert(side_rank(a.side) <= side_rank(b.side) <= side_rank(c.side));
                        if a.side == c.side {
                            assert(a.side == b.side && b.side == c.side);
                            lemma_chars_stage(a.exchange, b.exchange, c.exchange);
                            if a.exchange == c.exchange {
                                lemma_chars_stage(a.symbol, b.symbol, c.symbol);
                                if a.symbol == c.symbol {
                                    lemma_chars_stage(a.pair, b.pair, c.pair);
                                }
                            }
                        }
                    }
                }
            }
        }
    }
}

/// [`trade_le`] is a total order, so a multiset of trades has exactly one
/// sorted layout.
pub proof fn lemma_trade_le_total_ordering()
    ensures
        total_ordering(trade_leq()),
{
    let leq = trade_leq();
    assert forall|a: TradeView| #[trigger] leq(a, a) by {
        lemma_trade_le_connected(a, a);
    }
    assert forall|a: TradeView, b: TradeView| #[trigger] leq(a, b) || #[trigger] leq(b, a) by {
        lemma_trade_le_connected(a, b);
    }
    assert forall|a: TradeView, b: TradeView| #[trigger] leq(a, b) && #[trigger] leq(b, a)
        implies a == b by {
        lemma_trade_le_antisymmetric(a, b);
    }
    assert forall|a: TradeView, b: TradeView, c: TradeView|
        #[trigger] leq(a, b) && #[trigger] leq(b, c) implies leq(a, c) by {
        lemma_trade_le_transitive(a, b, c);
    }
}

fn side_rank_exec(s: Side) -> (r: u8)
    ensures
        r as int == side_rank(s),
{
    match s {
        Side::Buy => 0,
        Side::Sell => 1,
    }
}

fn market_rank_exec(m: MarketKind) -> (r: u8)
    ensures
        r as int == market_rank(m),
{
    match m {
        MarketKind::Spot => 0,
        MarketKind::LinearSwap => 1,
        MarketKind::InverseSwap => 2,
        MarketKind::LinearFuture => 3,
        MarketKind::InverseFuture => 4,
        MarketKind::Unknown => 5,
    }
}

/// Executable form of [`trade_le`].
pub fn trade_le_exec(a: &TradeEvent, b: &TradeEvent) -> (r: bool)
    ensures
        r == trade_le(a@, b@),
{
    if a.timestamp != b.timestamp {
        return a.timestamp < b.timestamp;
    }
    if !str_eq(a.trade_id.as_str(), b.trade_id.as_str()) {
        return str_le(a.trade_id.as_str(), b.trade_id.as_str());
    }
    if a.price != b.price {
        return a.price < b.price;
    }
    if a.quantity != b.quantity {
        return a.quantity < b.quantity;
    }
    if a.volume != b.volume {
        return a.volume < b.volume;
    }
    if a.side != b.side {
        return side_rank_exec(a.side) < side_rank_exec(b.side);
    }
    if !str_eq(a.exchange.as_str(), b.exchange.as_str()) {
        return str_le(a.exchange.as_str(), b.exchange.as_str());
    }
    if !str_eq(a.symbol.as_str(), b.symbol.as_str()) {
        return str_le(a.symbol.as_str(), b.symbol.as_str());
    }
    if !str_eq(a.pair.as_str(), b.pair.as_str()) {
        return str_le(a.pair.as_str(), b.pair.as_str());
    }
    market_rank_exec(a.market) <= market_rank_exec(b.market)
}

} // verus!
