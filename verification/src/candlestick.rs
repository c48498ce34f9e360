//! The open bucket for one instrument and one time window.
//!
//! A [`Candlestick`] collects the trades of one instrument whose timestamps
//! fall in `[timestamp - bar_size, timestamp)`. Admission re-checks the
//! instrument, the window, the trade's own validity, and deduplicates by
//! content fingerprint; the statistics are computed only when the bucket is
//! finalized into a bar.

use vstd::prelude::*;

verus! {

use crate::bar::build_candlestick;
use crate::bar::spec_bar;
use crate::bar::Bar;
use crate::bar::BarView;
use crate::price_cache::PriceCache;
use crate::resolver::find_slash;
use crate::resolver::quote_of;
use crate::resolver::spec_resolve;
use crate::resolver::extract_quote;
use crate::resolver::QuoteResolver;
use crate::strings::str_eq;
use crate::trade::same_fingerprint;
use crate::trade::trade_is_valid;
use crate::trade::fingerprint_eq;
use crate::trade::valid_trade;
use crate::trade::MarketKind;
use crate::trade::TradeEvent;
use crate::trade::TradeView;
use crate::units::MAX_BUCKET_TRADES;
use crate::units::MAX_INTERVAL;
use crate::units::MAX_TIMESTAMP;

/// The mathematical value of an open bucket.
#[verifier::ext_equal]
pub ghost struct CandlestickView {
    pub exchange: Seq<char>,
    pub market: MarketKind,
    pub symbol: Seq<char>,
    pub pair: Seq<char>,
    pub bar_size: i64,
    pub timestamp: i64,
    pub trades: Seq<TradeView>,
}

/// An open bucket: one instrument, one window, the trades admitted so far.
pub struct Candlestick {
    exchange: String,
    market: MarketKind,
    symbol: String,
    pair: String,
    bar_size: i64,
    /// The window's exclusive upper bound, in epoch milliseconds.
    pub timestamp: i64,
    trades: Vec<TradeEvent>,
}

impl View for Candlestick {
    type V = CandlestickView;

    closed spec fn view(&self) -> CandlestickView {
        CandlestickView {
            exchange: self.exchange@,
            market: self.market,
            symbol: self.symbol@,
            pair: self.pair@,
            bar_size: self.bar_size,
            timestamp: self.timestamp,
            trades: self.trades@.map_values(|t: TradeEvent| t@),
        }
    }
}

/// The window bounds a bucket may be created with. The lower bound on
/// `timestamp` admits the previous window of the earliest valid trade;
/// the upper bound leaves room for one full interval past the last one.
pub open spec fn valid_window(bar_size: i64, timestamp: i64) -> bool {
    &&& 1 <= bar_size <= MAX_INTERVAL
    &&& 0 <= timestamp <= MAX_TIMESTAMP + 2 * MAX_INTERVAL
}

/// Whether a trade belongs to this bucket's instrument.
pub open spec fn trade_matches(b: CandlestickView, t: TradeView) -> bool {
    &&& t.exchange == b.exchange
    &&& t.market == b.market
    &&& t.symbol == b.symbol
    &&& t.pair == b.pair
}

/// Whether a trade's timestamp falls inside this bucket's window.
pub open spec fn in_window(b: CandlestickView, t: TradeView) -> bool {
    b.timestamp - b.bar_size <= t.timestamp < b.timestamp
}

/// Whether the bucket already holds a trade with this fingerprint.
pub open spec fn is_duplicate(b: CandlestickView, t: TradeView) -> bool {
    exists|i: int| 0 <= i < b.trades.len() && same_fingerprint(#[trigger] b.trades[i], t)
}

/// Admission: the trade is well formed, belongs to this instrument and
/// window, is no duplicate, and the bucket has room.
pub open spec fn admits(b: CandlestickView, t: TradeView) -> bool {
    &&& valid_trade(t)
    &&& trade_matches(b, t)
    &&& in_window(b, t)
    &&& !is_duplicate(b, t)
    &&& b.trades.len() < MAX_BUCKET_TRADES
}

/// The bucket after admitting one trade.
pub open spec fn with_trade(b: CandlestickView, t: TradeView) -> CandlestickView {
    CandlestickView { trades: b.trades.push(t), ..b }
}

/// One admission step: the bucket with the trade if it is admitted,
/// unchanged otherwise. This is exactly what [`Candlestick::append`] does.
pub open spec fn feed(b: CandlestickView, t: TradeView) -> CandlestickView {
    if admits(b, t) {
        with_trade(b, t)
    } else {
        b
    }
}

/// Idempotence of admission: feeding the exact same trade again never
/// changes a bucket, so it never changes the resulting bar either. The
/// second copy is dropped as a duplicate of the first.
pub proof fn lemma_refeed_idempotent(b: CandlestickView, t: TradeView)
    ensures
        feed(feed(b, t), t) == feed(b, t),
{
    if admits(b, t) {
        let b2 = with_trade(b, t);
        assert(b2.trades[b.trades.len() as int] == t);
        assert(same_fingerprint(b2.trades[b.trades.len() as int], t));
        assert(is_duplicate(b2, t));
    }
}

/// A trade is a duplicate of the grown bucket exactly when it was a
/// duplicate already or it shares the new trade's fingerprint.
proof fn lemma_duplicate_after_push(b: CandlestickView, t: TradeView, x: TradeView)
    ensures
        is_duplicate(with_trade(b, t), x) == (is_duplicate(b, x) || same_fingerprint(t, x)),
{
    let b2 = with_trade(b, t);
    if is_duplicate(b, x) {
        let i = choose|i: int| 0 <= i < b.trades.len() && same_fingerprint(#[trigger] b.trades[i], x);
        assert(b2.trades[i] == b.trades[i]);
        assert(same_fingerprint(b2.trades[i], x));
    }
    if same_fingerprint(t, x) {
        assert(b2.trades[b.trades.len() as int] == t);
        assert(same_fingerprint(b2.trades[b.trades.len() as int], x));
    }
    if is_duplicate(b2, x) {
        let i = choose|i: int|
            0 <= i < b2.trades.len() && same_fingerprint(#[trigger] b2.trades[i], x);
        if i < b.trades.len() {
            assert(b.trades[i] == b2.trades[i]);
            assert(same_fingerprint(b.trades[i], x));
        } else {
            assert(b2.trades[i] == t);
        }
    }
}

/// Arrival order does not matter to a bucket: feeding two trades in
/// either order leaves it holding the same multiset of trades (and so,
/// by order independence of the bar, the same bar). The one proviso is
/// room for both: at the capacity cliff the arrival order decides which
/// trade takes the last slot.
pub proof fn lemma_feed_order_irrelevant(b: CandlestickView, t1: TradeView, t2: TradeView)
    requires
        b.trades.len() + 2 <= MAX_BUCKET_TRADES,
    ensures
        feed(feed(b, t1), t2).trades.to_multiset() == feed(feed(b, t2), t1).trades.to_multiset(),
{
    broadcast use vstd::seq_lib::group_to_multiset_ensures;

    lemma_duplicate_after_push(b, t1, t2);
    lemma_duplicate_after_push(b, t2, t1);
    let l = feed(feed(b, t1), t2);
    let r = feed(feed(b, t2), t1);
    if admits(b, t1) && admits(b, t2) {
        if same_fingerprint(t1, t2) {
            // two admissible records with one fingerprint are one trade:
            // the instrument fields agree through the bucket, the rest
            // through the fingerprint
            assert(t1 =~= t2);
            assert(l.trades =~= b.trades.push(t1));
            assert(r.trades =~= b.trades.push(t1));
        } else {
            assert(admits(with_trade(b, t1), t2));
            assert(admits(with_trade(b, t2), t1));
            assert(l.trades =~= b.trades.push(t1).push(t2));
            assert(r.trades =~= b.trades.push(t2).push(t1));
            assert(l.trades.to_multiset() =~= b.trades.to_multiset().insert(t1).insert(t2));
            assert(r.trades.to_multiset() =~= b.trades.to_multiset().insert(t2).insert(t1));
            assert(b.trades.to_multiset().insert(t1).insert(t2) =~= b.trades.to_multiset().insert(
                t2,
            ).insert(t1));
        }
    } else if admits(b, t1) {
        // whatever kept t2 out of the bucket still keeps it out after t1
        assert(!admits(with_trade(b, t1), t2));
        assert(l.trades =~= b.trades.push(t1));
        assert(r.trades =~= b.trades.push(t1));
    } else if admits(b, t2) {
        assert(!admits(with_trade(b, t2), t1));
        assert(l.trades =~= b.trades.push(t2));
        assert(r.trades =~= b.trades.push(t2));
    } else {
        assert(l.trades =~= b.trades);
        assert(r.trades =~= b.trades);
    }
}

/// What finalizing a bucket yields: nothing for an empty bucket, nothing
/// when the pair is malformed or its quote currency or BTC cannot be
/// priced right now, and otherwise the bar of the bucket's trades valued
/// at those two prices.
pub open spec fn spec_finalize(
    b: CandlestickView,
    stables: Seq<Seq<char>>,
    prices: Map<Seq<char>, u64>,
) -> Option<BarView> {
    if b.trades.len() == 0 {
        None
    } else if find_slash(b.pair) == -1 {
        None
    } else {
        let qp = spec_resolve(stables, prices, quote_of(b.pair));
        let bp = spec_resolve(stables, prices, "BTC"@);
        if qp is Some && bp is Some {
            Some(spec_bar(b.trades, b.bar_size, b.timestamp, qp->Some_0, bp->Some_0))
        } else {
            None
        }
    }
}

/// Everything admission preserves: window bounds, and each held trade
/// valid, matching, in the window, fingerprint-distinct, within capacity.
pub open spec fn wf_bucket(b: CandlestickView) -> bool {
    &&& valid_window(b.bar_size, b.timestamp)
    &&& b.trades.len() <= MAX_BUCKET_TRADES
    &&& forall|i: int| 0 <= i < b.trades.len() ==> valid_trade(#[trigger] b.trades[i])
    &&& forall|i: int| 0 <= i < b.trades.len() ==> trade_matches(b, #[trigger] b.trades[i])
    &&& forall|i: int| 0 <= i < b.trades.len() ==> in_window(b, #[trigger] b.trades[i])
    &&& forall|i: int, j: int|
        0 <= i < j < b.trades.len() ==> !same_fingerprint(b.trades[i], b.trades[j])
}

impl Candlestick {
    /// The bucket's invariant, on its mathematical value.
    pub open spec fn wf(&self) -> bool {
        wf_bucket(self@)
    }

    /// Whether a trade belongs to this bucket's instrument.
    pub fn matches_trade(&self, trade: &TradeEvent) -> (r: bool)
        ensures
            r == trade_matches(self@, trade@),
    {
        str_eq(trade.exchange.as_str(), self.exchange.as_str()) && trade.market == self.market
            && str_eq(trade.symbol.as_str(), self.symbol.as_str())
            && str_eq(trade.pair.as_str(), self.pair.as_str())
    }

    /// An empty bucket for the given instrument and window.
    pub fn new(
        exchange: String,
        market: MarketKind,
        symbol: String,
        pair: String,
        bar_size: i64,
        timestamp: i64,
    ) -> (r: Candlestick)
        requires
            valid_window(bar_size, timestamp),
        ensures
            r.wf(),
            r@ == (CandlestickView {
                exchange: exchange@,
                market,
                symbol: symbol@,
                pair: pair@,
                bar_size: bar_size,
                timestamp: timestamp,
                trades: Seq::<TradeView>::empty(),
            }),
    {
        let r = Candlestick { exchange, market, symbol, pair, bar_size, timestamp, trades: Vec::new() };
        proof {
            assert(r@.trades =~= Seq::<TradeView>::empty());
            assert(r@ =~= (CandlestickView {
                exchange: r@.exchange,
                market: r@.market,
                symbol: r@.symbol,
                pair: r@.pair,
                bar_size: r@.bar_size,
                timestamp: r@.timestamp,
                trades: Seq::<TradeView>::empty(),
            }));
        }
        r
    }

    /// How many trades the bucket holds.
    pub fn len(&self) -> (n: usize)
        ensures
            n == self@.trades.len(),
    {
        self.trades.len()
    }

    /// Admit one trade, or reject it: a trade of another instrument, one
    /// outside the window, one that is not well formed, a duplicate of an
    /// already-admitted trade, or one past capacity leaves the bucket
    /// unchanged.
    #[verifier::loop_isolation(false)]
    pub fn append(&mut self, trade: &TradeEvent) -> (admitted: bool)
        requires
            old(self).wf(),
        ensures
            final(self).wf(),
            admitted == admits(old(self)@, trade@),
            final(self)@ == feed(old(self)@, trade@),
            !admitted ==> *final(self) == *old(self),
    {
        if !str_eq(trade.exchange.as_str(), self.exchange.as_str()) {
            return false;
        }
        if trade.market != self.market {
            return false;
        }
        if !str_eq(trade.symbol.as_str(), self.symbol.as_str()) {
            return false;
        }
        if !str_eq(trade.pair.as_str(), self.pair.as_str()) {
            return false;
        }
        if trade.timestamp >= self.timestamp {
            return false;
        }
        if trade.timestamp < self.timestamp - self.bar_size {
            return false;
        }
        if !trade_is_valid(trade) {
            return false;
        }
        let n = self.trades.len();
        if n >= MAX_BUCKET_TRADES {
            return false;
        }
        let mut i: usize = 0;
        while i < n
            invariant
                0 <= i <= n,
                forall|j: int| 0 <= j < i ==> !same_fingerprint(
                    #[trigger] self@.trades[j],
                    trade@,
                ),
            decreases n - i,
        {
            proof {
                assert(self@.trades[i as int] == self.trades@[i as int]@);
            }
            if fingerprint_eq(&self.trades[i], trade) {
                return false;
            }
            i += 1;
        }
        let copy = duplicate_trade(trade);
        self.trades.push(copy);
        proof {
            assert(self@.trades =~= old(self)@.trades.push(trade@));
            assert(self@ =~= with_trade(old(self)@, trade@));
        }
        true
    }

    /// Turn the bucket into its bar, valuing the quote currency and BTC
    /// against the price table as it stands now. Yields nothing when the
    /// bucket is empty, its pair is malformed, or either price is missing:
    /// such a bucket is discarded rather than published.
    pub fn finalize(self, resolver: &QuoteResolver, prices: &PriceCache) -> (r: Option<Bar>)
        requires
            self.wf(),
            prices.wf(),
        ensures
            match r {
                Some(bar) => spec_finalize(self@, resolver.stables(), prices@) == Some(bar@),
                None => spec_finalize(self@, resolver.stables(), prices@) is None,
            },
    {
        if self.trades.is_empty() {
            return None;
        }
        let quote = match extract_quote(self.pair.as_str()) {
            Some(q) => q,
            None => {
                return None;
            },
        };
        let quote_price = match resolver.resolve_price(quote, prices) {
            Some(p) => p,
            None => {
                return None;
            },
        };
        let btc_price = match resolver.resolve_price("BTC", prices) {
            Some(p) => p,
            None => {
                return None;
            },
        };
        Some(build_candlestick(self.timestamp, self.bar_size, self.trades, quote_price, btc_price))
    }
}

/// A field-for-field copy of a trade, with the copy's value pinned down.
pub fn duplicate_trade(t: &TradeEvent) -> (r: TradeEvent)
    ensures
        r@ == t@,
{
    let r = TradeEvent {
        exchange: t.exchange.clone(),
        market: t.market,
        symbol: t.symbol.clone(),
        pair: t.pair.clone(),
        side: t.side,
        price: t.price,
        quantity: t.quantity,
        volume: t.volume,
        timestamp: t.timestamp,
        trade_id: t.trade_id.clone(),
    };
    proof {
        assert(r@ =~= t@);
    }
    r
}

} // verus!
