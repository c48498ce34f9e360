//! The window aggregator: the event-time-driven dual-buffer state machine.
//!
//! One shared window triple `(prev_begin, prev_end, cur_end)` covers two
//! adjacent intervals. Each admitted trade lands in its instrument's
//! bucket for the window its timestamp falls in; a trade older than
//! `prev_begin` has missed its grace window and is dropped; a trade at or
//! past `cur_end` advances the windows, finalizing every bucket whose
//! window closed. Boundaries move only with the data: there is no timer.

use vstd::prelude::*;

verus! {

use crate::bar::Bar;
use crate::bar::BarView;
use crate::candlestick::admits;
use crate::candlestick::feed;
use crate::candlestick::spec_finalize;
use crate::candlestick::wf_bucket;
use crate::candlestick::Candlestick;
use crate::candlestick::CandlestickView;
use crate::price_cache::PriceCache;
use crate::resolver::QuoteResolver;
use crate::trade::trade_is_valid;
use crate::trade::valid_trade;
use crate::trade::MarketKind;
use crate::trade::TradeEvent;
use crate::trade::TradeView;
use crate::units::MAX_INTERVAL;
use crate::units::MAX_TIMESTAMP;
use crate::candlestick::valid_window;
use vstd::arithmetic::div_mod::lemma_fundamental_div_mod;
use vstd::arithmetic::div_mod::lemma_fundamental_div_mod_converse;
use vstd::arithmetic::div_mod::lemma_mod_add_multiples_vanish;

/// Where one trade went: dropped as malformed, dropped as expired,
/// admitted into the previous or current window, or the trigger of a
/// window rotation.
#[derive(Clone, Copy, PartialEq, Eq, Structural, Debug)]
pub enum StepClass {
    /// The trade itself is not well formed and was dropped.
    Invalid,
    /// Older than the grace window: dropped.
    Expired,
    /// Fell in the previous, still-open window.
    Previous,
    /// Fell in the current window.
    Current,
    /// At or past the current window's end: windows advanced first.
    Rotation,
}

/// The instrument a bucket aggregates.
pub open spec fn bucket_key(b: CandlestickView) -> (Seq<char>, MarketKind, Seq<char>, Seq<char>) {
    (b.exchange, b.market, b.symbol, b.pair)
}

/// The instrument a trade belongs to.
pub open spec fn trade_key(t: TradeView) -> (Seq<char>, MarketKind, Seq<char>, Seq<char>) {
    (t.exchange, t.market, t.symbol, t.pair)
}

/// Index of the first bucket for this instrument, or `-1`.
pub open spec fn find_key(
    bs: Seq<CandlestickView>,
    k: (Seq<char>, MarketKind, Seq<char>, Seq<char>),
) -> int
    decreases bs.len(),
{
    if bs.len() == 0 {
        -1
    } else if bucket_key(bs[0]) == k {
        0
    } else if find_key(bs.drop_first(), k) == -1 {
        -1
    } else {
        find_key(bs.drop_first(), k) + 1
    }
}

proof fn lemma_find_key_at(bs: Seq<CandlestickView>, i: int)
    requires
        0 <= i < bs.len(),
        forall|j: int| 0 <= j < i ==> bucket_key(#[trigger] bs[j]) != bucket_key(bs[i]),
    ensures
        find_key(bs, bucket_key(bs[i])) == i,
    decreases i,
{
    if i > 0 {
        let d = bs.drop_first();
        assert forall|j: int| 0 <= j < i - 1 implies bucket_key(#[trigger] d[j]) != bucket_key(
            d[i - 1],
        ) by {
            assert(d[j] == bs[j + 1]);
        }
        assert(d[i - 1] == bs[i]);
        lemma_find_key_at(d, i - 1);
    }
}

proof fn lemma_find_key_absent(
    bs: Seq<CandlestickView>,
    k: (Seq<char>, MarketKind, Seq<char>, Seq<char>),
)
    requires
        forall|j: int| 0 <= j < bs.len() ==> bucket_key(#[trigger] bs[j]) != k,
    ensures
        find_key(bs, k) == -1,
    decreases bs.len(),
{
    if bs.len() > 0 {
        assert(forall|j: int|
            0 <= j < bs.drop_first().len() ==> bucket_key(#[trigger] bs.drop_first()[j]) != k);
        lemma_find_key_absent(bs.drop_first(), k);
    }
}

/// A fresh bucket for this trade's instrument and the given window.
pub open spec fn empty_bucket(t: TradeView, bar_size: i64, end: i64) -> CandlestickView {
    CandlestickView {
        exchange: t.exchange,
        market: t.market,
        symbol: t.symbol,
        pair: t.pair,
        bar_size,
        timestamp: end,
        trades: Seq::empty(),
    }
}

/// Route one trade into the bucket list for its window: into its
/// instrument's bucket if one is open, else into a fresh one.
pub open spec fn put_trade(
    bs: Seq<CandlestickView>,
    t: TradeView,
    bar_size: i64,
    end: i64,
) -> Seq<CandlestickView> {
    let i = find_key(bs, trade_key(t));
    if i >= 0 {
        bs.update(i, feed(bs[i], t))
    } else {
        bs.push(feed(empty_bucket(t, bar_size, end), t))
    }
}

/// Whether the routed trade was actually admitted (not a duplicate, not
/// over capacity).
pub open spec fn put_admits(
    bs: Seq<CandlestickView>,
    t: TradeView,
    bar_size: i64,
    end: i64,
) -> bool {
    let i = find_key(bs, trade_key(t));
    if i >= 0 {
        admits(bs[i], t)
    } else {
        admits(empty_bucket(t, bar_size, end), t)
    }
}

/// The bars of a closed window: each bucket finalized in order, keeping
/// those that yield one.
pub open spec fn finalize_all(
    bs: Seq<CandlestickView>,
    stables: Seq<Seq<char>>,
    prices: Map<Seq<char>, u64>,
) -> Seq<BarView>
    decreases bs.len(),
{
    if bs.len() == 0 {
        Seq::empty()
    } else {
        finalize_all(bs.drop_last(), stables, prices) + match spec_finalize(
            bs.last(),
            stables,
            prices,
        ) {
            Some(b) => seq![b],
            None => Seq::empty(),
        }
    }
}

/// The start of the interval a timestamp falls in.
pub open spec fn align_down(ts: i64, interval: i64) -> int {
    ts as int / interval as int * interval as int
}

proof fn lemma_align(ts: i64, interval: i64)
    requires
        0 <= ts,
        1 <= interval,
    ensures
        0 <= align_down(ts, interval) <= ts,
        ts < align_down(ts, interval) + interval,
        align_down(ts, interval) % interval as int == 0,
{
    let t = ts as int;
    let iv = interval as int;
    lemma_fundamental_div_mod(t, iv);
    assert(t == iv * (t / iv) + t % iv);
    assert(0 <= t % iv < iv);
    assert(iv * (t / iv) == (t / iv) * iv) by (nonlinear_arith);
    assert(0 <= (t / iv) * iv) by (nonlinear_arith)
        requires
            0 <= t / iv,
            0 < iv,
    ;
    assert(((t / iv) * iv) % iv == 0) by (nonlinear_arith)
        requires
            0 < iv,
    ;
}

/// The mathematical state of the aggregator.
#[verifier::ext_equal]
pub ghost struct AggregatorView {
    pub interval: i64,
    pub started: bool,
    pub prev_begin: i64,
    pub prev_end: i64,
    pub cur_end: i64,
    pub prev: Seq<CandlestickView>,
    pub cur: Seq<CandlestickView>,
}

/// Which window a trade falls in, given the current state.
pub open spec fn classify(a: AggregatorView, t: TradeView) -> StepClass {
    if !valid_trade(t) {
        StepClass::Invalid
    } else if !a.started {
        StepClass::Current
    } else if t.timestamp < a.prev_begin {
        StepClass::Expired
    } else if t.timestamp < a.prev_end {
        StepClass::Previous
    } else if t.timestamp < a.cur_end {
        StepClass::Current
    } else {
        StepClass::Rotation
    }
}

/// The aggregator's transition function: one trade in, the next state and
/// the finalized bars out. Rotation finalizes the previous window's
/// buckets, and the current window's too if the trade jumped more than
/// one interval ahead; the windows then re-align to the trade and the
/// trade seeds the fresh current bucket.
pub open spec fn step(
    a: AggregatorView,
    t: TradeView,
    stables: Seq<Seq<char>>,
    prices: Map<Seq<char>, u64>,
) -> (AggregatorView, Seq<BarView>) {
    match classify(a, t) {
        StepClass::Invalid => (a, Seq::empty()),
        StepClass::Expired => (a, Seq::empty()),
        StepClass::Previous => (
            AggregatorView { prev: put_trade(a.prev, t, a.interval, a.prev_end), ..a },
            Seq::empty(),
        ),
        StepClass::Current => {
            let next = if !a.started {
                let pe = align_down(t.timestamp, a.interval);
                AggregatorView {
                    started: true,
                    prev_begin: (pe - a.interval) as i64,
                    prev_end: pe as i64,
                    cur_end: (pe + a.interval) as i64,
                    prev: Seq::empty(),
                    cur: put_trade(
                        Seq::empty(),
                        t,
                        a.interval,
                        (pe + a.interval) as i64,
                    ),
                    ..a
                }
            } else {
                AggregatorView { cur: put_trade(a.cur, t, a.interval, a.cur_end), ..a }
            };
            (next, Seq::empty())
        },
        StepClass::Rotation => {
            let single = (t.timestamp as int) < a.cur_end + a.interval;
            let bars = finalize_all(a.prev, stables, prices) + if single {
                Seq::<BarView>::empty()
            } else {
                finalize_all(a.cur, stables, prices)
            };
            let pe = align_down(t.timestamp, a.interval);
            let next = AggregatorView {
                started: true,
                prev_begin: (pe - a.interval) as i64,
                prev_end: pe as i64,
                cur_end: (pe + a.interval) as i64,
                prev: if single {
                    a.cur
                } else {
                    Seq::empty()
                },
                cur: put_trade(Seq::empty(), t, a.interval, (pe + a.interval) as i64),
                ..a
            };
            (next, bars)
        },
    }
}

/// Spec-level step with the emitted bars.
pub open spec fn step_state(
    a: AggregatorView,
    t: TradeView,
    stables: Seq<Seq<char>>,
    prices: Map<Seq<char>, u64>,
) -> AggregatorView {
    step(a, t, stables, prices).0
}

/// Whether the routed trade enters a bucket at this step.
pub open spec fn step_admitted(a: AggregatorView, t: TradeView) -> bool {
    match classify(a, t) {
        StepClass::Invalid => false,
        StepClass::Expired => false,
        StepClass::Previous => put_admits(a.prev, t, a.interval, a.prev_end),
        StepClass::Current => {
            if !a.started {
                true
            } else {
                put_admits(a.cur, t, a.interval, a.cur_end)
            }
        },
        StepClass::Rotation => true,
    }
}

/// Every bar of a closed window carries that window's end.
proof fn lemma_finalize_all_timestamps(
    bs: Seq<CandlestickView>,
    stables: Seq<Seq<char>>,
    prices: Map<Seq<char>, u64>,
    end: i64,
)
    requires
        forall|i: int| 0 <= i < bs.len() ==> (#[trigger] bs[i]).timestamp == end,
    ensures
        forall|i: int|
            0 <= i < finalize_all(bs, stables, prices).len() ==> (#[trigger] finalize_all(
                bs,
                stables,
                prices,
            )[i]).timestamp == end,
    decreases bs.len(),
{
    if bs.len() > 0 {
        assert(forall|i: int|
            0 <= i < bs.drop_last().len() ==> (#[trigger] bs.drop_last()[i]).timestamp == end);
        lemma_finalize_all_timestamps(bs.drop_last(), stables, prices, end);
        assert(bs.last() == bs[bs.len() - 1]);
    }
}

/// Emission order equals window order: within one step, every emitted bar
/// of the older window comes before every bar of the newer one, so a
/// previous window is never published after a later window.
pub proof fn lemma_emission_in_window_order(
    a: AggregatorView,
    t: TradeView,
    stables: Seq<Seq<char>>,
    prices: Map<Seq<char>, u64>,
)
    requires
        wf_aggregator(a),
    ensures
        forall|i: int, j: int|
            0 <= i < j < step(a, t, stables, prices).1.len() ==> (#[trigger] step(
                a,
                t,
                stables,
                prices,
            ).1[i]).timestamp <= (#[trigger] step(a, t, stables, prices).1[j]).timestamp,
{
    let bars = step(a, t, stables, prices).1;
    if classify(a, t) == StepClass::Rotation {
        lemma_finalize_all_timestamps(a.prev, stables, prices, a.prev_end);
        lemma_finalize_all_timestamps(a.cur, stables, prices, a.cur_end);
        let first = finalize_all(a.prev, stables, prices);
        let second = finalize_all(a.cur, stables, prices);
        assert forall|i: int, j: int| 0 <= i < j < bars.len() implies (#[trigger] bars[i]).timestamp
            <= (#[trigger] bars[j]).timestamp by {
            if t.timestamp < a.cur_end + a.interval {
                assert(bars[i] == first[i]);
                assert(bars[j] == first[j]);
            } else {
                if i < first.len() {
                    assert(bars[i] == first[i]);
                } else {
                    assert(bars[i] == second[i - first.len()]);
                }
                if j < first.len() {
                    assert(bars[j] == first[j]);
                } else {
                    assert(bars[j] == second[j - first.len()]);
                }
            }
        }
    }
}

/// Lateness boundary: a trade at exactly `prev_begin` still enters the
/// previous window, one millisecond earlier it has expired, and a trade
/// at exactly `cur_end` forces a rotation rather than joining the current
/// window.
pub proof fn lemma_lateness_boundary(a: AggregatorView, t: TradeView)
    requires
        a.started,
        valid_trade(t),
        a.prev_begin < a.prev_end <= a.cur_end,
    ensures
        t.timestamp == a.prev_begin ==> classify(a, t) == StepClass::Previous,
        t.timestamp == a.prev_begin - 1 ==> classify(a, t) == StepClass::Expired,
        t.timestamp == a.cur_end ==> classify(a, t) == StepClass::Rotation,
{
}

/// A closed window's bucket list: every bucket well formed, all on this
/// window, one per instrument.
pub open spec fn buckets_wf(bs: Seq<CandlestickView>, interval: i64, end: i64) -> bool {
    &&& forall|i: int| 0 <= i < bs.len() ==> wf_bucket(#[trigger] bs[i])
    &&& forall|i: int|
        0 <= i < bs.len() ==> (#[trigger] bs[i]).bar_size == interval && bs[i].timestamp == end
    &&& forall|i: int, j: int|
        0 <= i < j < bs.len() ==> bucket_key(bs[i]) != bucket_key(bs[j])
}

/// The bucket views carried by an executable bucket vector.
pub open spec fn bviews_of(s: Seq<Candlestick>) -> Seq<CandlestickView> {
    s.map_values(|b: Candlestick| b@)
}

/// The bar views carried by an executable bar vector.
pub open spec fn bar_views_of(s: Seq<Bar>) -> Seq<BarView> {
    s.map_values(|b: Bar| b@)
}

/// Route one trade into the bucket list of one window, per [`put_trade`].
#[verifier::loop_isolation(false)]
fn put_into(buckets: &mut Vec<Candlestick>, trade: &TradeEvent, interval: i64, end: i64) -> (admitted: bool)
    requires
        buckets_wf(bviews_of(old(buckets)@), interval, end),
        valid_trade(trade@),
        valid_window(interval, end),
        end - interval <= trade@.timestamp < end,
    ensures
        bviews_of(final(buckets)@) == put_trade(bviews_of(old(buckets)@), trade@, interval, end),
        buckets_wf(bviews_of(final(buckets)@), interval, end),
        admitted == put_admits(bviews_of(old(buckets)@), trade@, interval, end),
{
    let ghost vs = bviews_of(buckets@);
    let n = buckets.len();
    let mut i: usize = 0;
    while i < n
        invariant
            0 <= i <= n,
            buckets@ == old(buckets)@,
            n == buckets@.len(),
            vs == bviews_of(buckets@),
            forall|j: int| 0 <= j < i ==> bucket_key(#[trigger] vs[j]) != trade_key(trade@),
        decreases n - i,
    {
        proof {
            assert(vs[i as int] == buckets@[i as int]@);
        }
        if buckets[i].matches_trade(trade) {
            proof {
                assert(bucket_key(vs[i as int]) == trade_key(trade@));
                lemma_find_key_at(vs, i as int);
            }
            let mut b = buckets.remove(i);
            let admitted = b.append(trade);
            buckets.insert(i, b);
            proof {
                assert(buckets@ =~= old(buckets)@.update(i as int, buckets@[i as int]));
                assert(bviews_of(buckets@) =~= vs.update(i as int, feed(vs[i as int], trade@)));
                let nvs = bviews_of(buckets@);
                assert forall|a: int, c: int| 0 <= a < c < nvs.len() implies bucket_key(nvs[a])
                    != bucket_key(nvs[c]) by {
                    assert(bucket_key(nvs[a]) == bucket_key(vs[a]));
                    assert(bucket_key(nvs[c]) == bucket_key(vs[c]));
                }
            }
            return admitted;
        }
        i += 1;
    }
    proof {
        lemma_find_key_absent(vs, trade_key(trade@));
    }
    let mut b = Candlestick::new(
        trade.exchange.clone(),
        trade.market,
        trade.symbol.clone(),
        trade.pair.clone(),
        interval,
        end,
    );
    proof {
        assert(b@ =~= empty_bucket(trade@, interval, end));
        assert(!crate::candlestick::is_duplicate(b@, trade@));
        assert(admits(b@, trade@));
    }
    let admitted = b.append(trade);
    buckets.push(b);
    proof {
        assert(admitted);
        assert(bviews_of(buckets@) =~= vs.push(feed(empty_bucket(trade@, interval, end), trade@)));
        let nvs = bviews_of(buckets@);
        assert forall|a: int, c: int| 0 <= a < c < nvs.len() implies bucket_key(nvs[a])
            != bucket_key(nvs[c]) by {
            if c < nvs.len() - 1 {
                assert(bucket_key(nvs[a]) == bucket_key(vs[a]));
                assert(bucket_key(nvs[c]) == bucket_key(vs[c]));
            } else {
                assert(bucket_key(nvs[a]) == bucket_key(vs[a]));
                assert(bucket_key(nvs[c]) == trade_key(trade@));
            }
        }
    }
    true
}

/// Finalize every bucket in the list, in order, appending the bars that
/// come out; the list is left empty.
#[verifier::loop_isolation(false)]
fn drain_buckets(
    buckets: &mut Vec<Candlestick>,
    bars: &mut Vec<Bar>,
    resolver: &QuoteResolver,
    prices: &PriceCache,
)
    requires
        prices.wf(),
        forall|i: int|
            0 <= i < old(buckets)@.len() ==> wf_bucket(#[trigger] bviews_of(old(buckets)@)[i]),
    ensures
        final(buckets)@.len() == 0,
        bar_views_of(final(bars)@) == bar_views_of(old(bars)@) + finalize_all(
            bviews_of(old(buckets)@),
            resolver.stables(),
            prices@,
        ),
{
    let ghost orig = bviews_of(buckets@);
    let ghost bars0 = bar_views_of(bars@);
    let ghost mut k: int = 0;
    while buckets.len() > 0
        invariant
            0 <= k <= orig.len(),
            bviews_of(buckets@) == orig.skip(k),
            bar_views_of(bars@) == bars0 + finalize_all(orig.take(k), resolver.stables(), prices@),
        decreases buckets@.len(),
    {
        proof {
            assert(orig.skip(k)[0] == orig[k]);
            assert(wf_bucket(orig[k]));
        }
        let b = buckets.remove(0);
        proof {
            assert(b@ == orig[k]);
            assert(bviews_of(buckets@) =~= orig.skip(k).drop_first());
            assert(orig.skip(k).drop_first() =~= orig.skip(k + 1));
        }
        let ghost pre_bars = bar_views_of(bars@);
        match b.finalize(resolver, prices) {
            Some(bar) => {
                bars.push(bar);
                proof {
                    assert(bar_views_of(bars@) =~= pre_bars.push(bar@));
                }
            },
            None => {},
        }
        proof {
            assert(orig.take(k + 1).drop_last() =~= orig.take(k));
            assert(orig.take(k + 1).last() == orig[k]);
            match spec_finalize(orig[k], resolver.stables(), prices@) {
                Some(bv) => {
                    assert(bar_views_of(bars@) =~= pre_bars.push(bv));
                    assert(finalize_all(orig.take(k + 1), resolver.stables(), prices@)
                        =~= finalize_all(orig.take(k), resolver.stables(), prices@).push(bv));
                    assert(bar_views_of(bars@) =~= bars0 + finalize_all(
                        orig.take(k + 1),
                        resolver.stables(),
                        prices@,
                    ));
                },
                None => {
                    assert(finalize_all(orig.take(k + 1), resolver.stables(), prices@)
                        =~= finalize_all(orig.take(k), resolver.stables(), prices@));
                },
            }
            k = k + 1;
        }
    }
    proof {
        assert(orig.skip(k).len() == 0);
        assert(k == orig.len());
        assert(orig.take(k) =~= orig);
    }
}

/// The window aggregator.
pub struct Aggregator {
    interval: i64,
    started: bool,
    prev_begin: i64,
    prev_end: i64,
    cur_end: i64,
    prev: Vec<Candlestick>,
    cur: Vec<Candlestick>,
}

impl View for Aggregator {
    type V = AggregatorView;

    closed spec fn view(&self) -> AggregatorView {
        AggregatorView {
            interval: self.interval,
            started: self.started,
            prev_begin: self.prev_begin,
            prev_end: self.prev_end,
            cur_end: self.cur_end,
            prev: self.prev@.map_values(|b: Candlestick| b@),
            cur: self.cur@.map_values(|b: Candlestick| b@),
        }
    }
}

/// The aggregator's invariant: a legal interval; before the first trade
/// no buckets and no windows; afterwards two adjacent aligned windows
/// within timestamp range, with every bucket on its window.
pub open spec fn wf_aggregator(a: AggregatorView) -> bool {
    &&& 1 <= a.interval <= MAX_INTERVAL
    &&& !a.started ==> a.prev.len() == 0 && a.cur.len() == 0
    &&& a.started ==> {
        &&& 0 <= a.prev_end
        &&& a.prev_begin == a.prev_end - a.interval
        &&& a.cur_end == a.prev_end + a.interval
        &&& a.prev_end <= MAX_TIMESTAMP
        &&& a.prev_end as int % a.interval as int == 0
        &&& buckets_wf(a.prev, a.interval, a.prev_end)
        &&& buckets_wf(a.cur, a.interval, a.cur_end)
    }
}

impl Aggregator {
    /// The invariant, on the aggregator's mathematical state.
    pub open spec fn wf(&self) -> bool {
        wf_aggregator(self@)
    }

    /// A fresh aggregator with the given bar interval in milliseconds.
    /// Windows are set by the first trade to arrive.
    pub fn new(interval: i64) -> (r: Aggregator)
        requires
            1 <= interval <= MAX_INTERVAL,
        ensures
            r.wf(),
            r@ == (AggregatorView {
                interval,
                started: false,
                prev_begin: 0,
                prev_end: 0,
                cur_end: 0,
                prev: Seq::empty(),
                cur: Seq::empty(),
            }),
    {
        let r = Aggregator {
            interval,
            started: false,
            prev_begin: 0,
            prev_end: 0,
            cur_end: 0,
            prev: Vec::new(),
            cur: Vec::new(),
        };
        proof {
            assert(r@.prev =~= Seq::<CandlestickView>::empty());
            assert(r@.cur =~= Seq::<CandlestickView>::empty());
            assert(r@ =~= (AggregatorView {
                interval,
                started: false,
                prev_begin: 0,
                prev_end: 0,
                cur_end: 0,
                prev: Seq::empty(),
                cur: Seq::empty(),
            }));
        }
        r
    }

    /// Feed one trade through the state machine: classify it against the
    /// two open windows, admit or drop it, and hand back whatever bars a
    /// rotation finalized, in bucket order.
    pub fn on_trade(
        &mut self,
        trade: &TradeEvent,
        resolver: &QuoteResolver,
        prices: &PriceCache,
    ) -> (r: (StepClass, bool, Vec<Bar>))
        requires
            old(self).wf(),
            prices.wf(),
        ensures
            final(self).wf(),
            r.0 == classify(old(self)@, trade@),
            r.1 == step_admitted(old(self)@, trade@),
            final(self)@ == step(old(self)@, trade@, resolver.stables(), prices@).0,
            bar_views_of(r.2@) == step(old(self)@, trade@, resolver.stables(), prices@).1,
    {
        let ghost a0 = self@;
        let ghost stables = resolver.stables();
        let ghost pm = prices@;
        let no_bars: Vec<Bar> = Vec::new();
        proof {
            assert(bar_views_of(no_bars@) =~= Seq::<BarView>::empty());
        }
        if !trade_is_valid(trade) {
            return (StepClass::Invalid, false, no_bars);
        }
        if !self.started {
            proof {
                lemma_align(trade.timestamp, self.interval);
            }
            let pe = (trade.timestamp / self.interval) * self.interval;
            self.started = true;
            self.prev_begin = pe - self.interval;
            self.prev_end = pe;
            self.cur_end = pe + self.interval;
            proof {
                assert(bviews_of(self.cur@) =~= Seq::<CandlestickView>::empty());
            }
            let admitted = put_into(&mut self.cur, trade, self.interval, self.cur_end);
            proof {
                assert(admitted);
                assert(self@ =~= step(a0, trade@, stables, pm).0);
            }
            return (StepClass::Current, admitted, no_bars);
        }
        if trade.timestamp < self.prev_begin {
            return (StepClass::Expired, false, no_bars);
        }
        if trade.timestamp < self.prev_end {
            let admitted = put_into(&mut self.prev, trade, self.interval, self.prev_end);
            proof {
                assert(self@ =~= step(a0, trade@, stables, pm).0);
            }
            return (StepClass::Previous, admitted, no_bars);
        }
        if trade.timestamp < self.cur_end {
            let admitted = put_into(&mut self.cur, trade, self.interval, self.cur_end);
            proof {
                assert(self@ =~= step(a0, trade@, stables, pm).0);
            }
            return (StepClass::Current, admitted, no_bars);
        }
        let mut bars: Vec<Bar> = Vec::new();
        drain_buckets(&mut self.prev, &mut bars, resolver, prices);
        let single = trade.timestamp < self.cur_end + self.interval;
        if single {
            core::mem::swap(&mut self.prev, &mut self.cur);
        } else {
            drain_buckets(&mut self.cur, &mut bars, resolver, prices);
            proof {
                assert(bviews_of(self.prev@) =~= Seq::<CandlestickView>::empty());
            }
        }
        proof {
            lemma_align(trade.timestamp, self.interval);
        }
        let pe = (trade.timestamp / self.interval) * self.interval;
        self.prev_begin = pe - self.interval;
        self.prev_end = pe;
        self.cur_end = pe + self.interval;
        proof {
            assert(bviews_of(self.cur@) =~= Seq::<CandlestickView>::empty());
            if single {
                // a single-interval advance keeps the old current buckets:
                // their window end is exactly the new previous boundary
                let iv = a0.interval as int;
                let ce = a0.cur_end as int;
                let ts = trade@.timestamp as int;
                lemma_mod_add_multiples_vanish(a0.prev_end as int, iv);
                assert(ce % iv == 0);
                lemma_fundamental_div_mod(ce, iv);
                assert(ce == iv * (ce / iv));
                assert(iv * (ce / iv) == (ce / iv) * iv) by (nonlinear_arith);
                lemma_fundamental_div_mod_converse(ts, iv, ce / iv, ts - ce);
                assert(ts / iv == ce / iv);
                assert(pe as int == ts / iv * iv);
                assert(pe == a0.cur_end);
            }
        }
        let admitted = put_into(&mut self.cur, trade, self.interval, self.cur_end);
        proof {
            assert(admitted);
            assert(self@ =~= step(a0, trade@, stables, pm).0);
            assert(bar_views_of(bars@) =~= step(a0, trade@, stables, pm).1);
        }
        (StepClass::Rotation, admitted, bars)
    }
}

} // verus!
