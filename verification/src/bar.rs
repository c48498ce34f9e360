//! Bar statistics: sums, sorting, and the finalized OHLCV bar.
//!
//! A finalized bucket's trades are laid out in the total order of
//! [`trade_le`]; the first and last of that layout fix the bar's open and
//! close. Sums run over the same layout, so every statistic is a function
//! of the multiset of admitted trades alone.

use vstd::prelude::*;

verus! {

use crate::trade::trade_le;
use crate::trade::trade_le_exec;
use crate::trade::trade_leq;
use crate::trade::lemma_trade_le_total_ordering;
use crate::trade::valid_trade;
use crate::trade::Side;
use crate::trade::TradeEvent;
use crate::trade::TradeView;
use crate::units::MAX_AMOUNT;
use crate::units::MAX_BUCKET_TRADES;
use crate::units::PRICE_SCALE;
use vstd::arithmetic::div_mod::lemma_div_is_ordered;
use vstd::arithmetic::div_mod::lemma_div_multiples_vanish;
use vstd::arithmetic::div_mod::lemma_div_nonincreasing;
use vstd::arithmetic::div_mod::lemma_div_pos_is_pos;
use vstd::relations::sorted_by;
use vstd::relations::total_ordering;
use vstd::seq_lib::lemma_sorted_unique;

/// The trade views carried by an executable trade vector.
pub open spec fn views_of(s: Seq<TradeEvent>) -> Seq<TradeView> {
    s.map_values(|t: TradeEvent| t@)
}

/// Every trade in the sequence is well formed.
pub open spec fn all_valid(s: Seq<TradeView>) -> bool {
    forall|i: int| 0 <= i < s.len() ==> valid_trade(#[trigger] s[i])
}

/// Side filter: `None` selects every side, `Some(side)` only that side.
pub open spec fn side_sel(side: Option<Side>, s: Side) -> bool {
    match side {
        Option::None => true,
        Option::Some(x) => s == x,
    }
}

/// Whether the side filter selects this trade.
pub open spec fn on_side(side: Option<Side>, t: TradeView) -> bool {
    side_sel(side, t.side)
}

/// Executable form of [`side_sel`].
fn side_matches(side: Option<Side>, s: Side) -> (r: bool)
    ensures
        r == side_sel(side, s),
{
    match side {
        Option::None => true,
        Option::Some(x) => s == x,
    }
}

/// A trade's quote-currency value: `price * quantity`, scaled back down.
pub open spec fn quote_term(t: TradeView) -> int {
    t.price as int * t.quantity as int / PRICE_SCALE as int
}

/// A trade's USD value: its quote value converted at the quote currency's
/// USD price.
pub open spec fn usd_term(t: TradeView, quote_price: u64) -> int {
    quote_term(t) * quote_price as int / PRICE_SCALE as int
}

/// Total base-asset quantity of the selected trades.
pub open spec fn sum_quantity(s: Seq<TradeView>, side: Option<Side>) -> int
    decreases s.len(),
{
    if s.len() == 0 {
        0
    } else {
        sum_quantity(s.drop_last(), side) + if on_side(side, s.last()) {
            s.last().quantity as int
        } else {
            0
        }
    }
}

/// Total quote-currency volume of the selected trades.
pub open spec fn sum_quote(s: Seq<TradeView>, side: Option<Side>) -> int
    decreases s.len(),
{
    if s.len() == 0 {
        0
    } else {
        sum_quote(s.drop_last(), side) + if on_side(side, s.last()) {
            quote_term(s.last())
        } else {
            0
        }
    }
}

/// Total USD volume of the selected trades.
pub open spec fn sum_usd(s: Seq<TradeView>, quote_price: u64, side: Option<Side>) -> int
    decreases s.len(),
{
    if s.len() == 0 {
        0
    } else {
        sum_usd(s.drop_last(), quote_price, side) + if on_side(side, s.last()) {
            usd_term(s.last(), quote_price)
        } else {
            0
        }
    }
}

/// Sum of the trades' prices (for the mean).
pub open spec fn sum_price(s: Seq<TradeView>) -> int
    decreases s.len(),
{
    if s.len() == 0 {
        0
    } else {
        sum_price(s.drop_last()) + s.last().price
    }
}

/// How many of the trades the side filter selects.
pub open spec fn count_on(s: Seq<TradeView>, side: Option<Side>) -> int
    decreases s.len(),
{
    if s.len() == 0 {
        0
    } else {
        count_on(s.drop_last(), side) + if on_side(side, s.last()) {
            1int
        } else {
            0int
        }
    }
}

/// A USD volume converted to BTC at the given BTC price.
pub open spec fn to_btc(usd: int, btc_price: u64) -> int {
    usd * PRICE_SCALE as int / btc_price as int
}

/// Volume-weighted average price: a volume divided by the base quantity.
pub open spec fn vwap_of(vol: int, base: int) -> int {
    vol * PRICE_SCALE as int / base
}

proof fn lemma_quote_term_bounds(t: TradeView)
    requires
        valid_trade(t),
    ensures
        0 <= quote_term(t),
        quote_term(t) <= PRICE_SCALE * t.quantity,
    decreases 0int,
{
    lemma_div_pos_is_pos(t.price * t.quantity, PRICE_SCALE as int);
    assert(t.price * t.quantity <= MAX_AMOUNT * t.quantity) by (nonlinear_arith)
        requires
            1 <= t.price <= MAX_AMOUNT,
            1 <= t.quantity,
    ;
    lemma_div_is_ordered(
        t.price * t.quantity,
        MAX_AMOUNT * t.quantity,
        PRICE_SCALE as int,
    );
    lemma_div_multiples_vanish(PRICE_SCALE * t.quantity, PRICE_SCALE as int);
    assert(MAX_AMOUNT * t.quantity == PRICE_SCALE as int * (PRICE_SCALE * t.quantity));
}

proof fn lemma_usd_term_bounds(t: TradeView, quote_price: u64)
    requires
        valid_trade(t),
        1 <= quote_price <= MAX_AMOUNT,
    ensures
        0 <= usd_term(t, quote_price),
        usd_term(t, quote_price) <= MAX_AMOUNT * t.quantity,
{
    lemma_quote_term_bounds(t);
    let qt = quote_term(t);
    lemma_div_pos_is_pos(qt * quote_price, PRICE_SCALE as int);
    assert(qt * quote_price <= qt * MAX_AMOUNT) by (nonlinear_arith)
        requires
            0 <= qt,
            1 <= quote_price <= MAX_AMOUNT,
    ;
    lemma_div_is_ordered(qt * quote_price, qt * MAX_AMOUNT, PRICE_SCALE as int);
    lemma_div_multiples_vanish(PRICE_SCALE * qt, PRICE_SCALE as int);
    assert(qt * MAX_AMOUNT == PRICE_SCALE as int * (PRICE_SCALE * qt));
    assert(PRICE_SCALE * qt <= PRICE_SCALE * (PRICE_SCALE * t.quantity)) by (nonlinear_arith)
        requires
            qt <= PRICE_SCALE * t.quantity,
    ;
    assert(PRICE_SCALE as int * (PRICE_SCALE * t.quantity) == MAX_AMOUNT * t.quantity);
}

/// Bounds every accumulated sum needs: each sum is nonnegative, grows at
/// most [`MAX_AMOUNT`] per admitted unit of base quantity, and the base
/// quantity itself is at least one unit per selected trade.
pub proof fn lemma_sum_bounds(s: Seq<TradeView>, quote_price: u64, side: Option<Side>)
    requires
        all_valid(s),
        1 <= quote_price <= MAX_AMOUNT,
    ensures
        count_on(s, side) <= sum_quantity(s, side) <= s.len() * MAX_AMOUNT,
        0 <= count_on(s, side) <= s.len(),
        0 <= sum_quote(s, side) <= PRICE_SCALE * sum_quantity(s, side),
        0 <= sum_usd(s, quote_price, side) <= MAX_AMOUNT * sum_quantity(s, side),
        0 <= sum_price(s) <= s.len() * MAX_AMOUNT,
    decreases s.len(),
{
    if s.len() > 0 {
        assert(all_valid(s.drop_last()));
        lemma_sum_bounds(s.drop_last(), quote_price, side);
        lemma_quote_term_bounds(s.last());
        lemma_usd_term_bounds(s.last(), quote_price);
        assert(s.last() == s[s.len() - 1]);
    }
}

/// Splitting by side loses nothing: the two sides of every sum add up to
/// its unfiltered total.
pub proof fn lemma_sum_sides(s: Seq<TradeView>, quote_price: u64)
    ensures
        sum_quantity(s, None) == sum_quantity(s, Some(Side::Buy)) + sum_quantity(
            s,
            Some(Side::Sell),
        ),
        sum_quote(s, None) == sum_quote(s, Some(Side::Buy)) + sum_quote(s, Some(Side::Sell)),
        sum_usd(s, quote_price, None) == sum_usd(s, quote_price, Some(Side::Buy)) + sum_usd(
            s,
            quote_price,
            Some(Side::Sell),
        ),
        count_on(s, None) == count_on(s, Some(Side::Buy)) + count_on(s, Some(Side::Sell)),
    decreases s.len(),
{
    if s.len() > 0 {
        lemma_sum_sides(s.drop_last(), quote_price);
    }
}

/// The price order used for low, high and the median.
pub open spec fn price_leq() -> spec_fn(u64, u64) -> bool {
    |a: u64, b: u64| a <= b
}

/// The price order is total.
pub proof fn lemma_price_leq_total_ordering()
    ensures
        total_ordering(price_leq()),
{
    let leq = price_leq();
    assert forall|a: u64| #[trigger] leq(a, a) by {}
    assert forall|a: u64, b: u64| #[trigger] leq(a, b) || #[trigger] leq(b, a) by {}
    assert forall|a: u64, b: u64| #[trigger] leq(a, b) && #[trigger] leq(b, a) implies a == b by {}
    assert forall|a: u64, b: u64, c: u64|
        #[trigger] leq(a, b) && #[trigger] leq(b, c) implies leq(a, c) by {}
}

proof fn lemma_to_multiset_insert<A>(s: Seq<A>, i: int, a: A)
    requires
        0 <= i <= s.len(),
    ensures
        s.insert(i, a).to_multiset() =~= s.to_multiset().insert(a),
{
    broadcast use vstd::seq_lib::group_to_multiset_ensures;

    let t = s.insert(i, a);
    assert(t.remove(i) =~= s);
    assert(t[i] == a);
    assert(t.remove(i).to_multiset() =~= t.to_multiset().remove(t[i]));
    assert(t.contains(a));
    assert(t.to_multiset().count(a) > 0);
    assert(t.to_multiset() =~= t.to_multiset().remove(a).insert(a));
}

/// Sort the trades in place into the order of [`trade_le`].
#[verifier::loop_isolation(false)]
pub fn sort_trades(v: &mut Vec<TradeEvent>)
    ensures
        final(v)@.len() == old(v)@.len(),
        views_of(final(v)@).to_multiset() == views_of(old(v)@).to_multiset(),
        sorted_by(views_of(final(v)@), trade_leq()),
{
    proof {
        lemma_trade_le_total_ordering();
    }
    let ghost leq = trade_leq();
    let n = v.len();
    if n == 0 {
        return;
    }
    let mut i: usize = 1;
    while i < n
        invariant
            1 <= i <= n,
            v@.len() == n,
            views_of(v@).to_multiset() == views_of(old(v)@).to_multiset(),
            sorted_by(views_of(v@).take(i as int), leq),
        decreases n - i,
    {
        let ghost before = views_of(v@);
        let x = v.remove(i);
        proof {
            assert(views_of(v@) =~= before.remove(i as int));
            broadcast use vstd::seq_lib::group_to_multiset_ensures;

            assert(before.remove(i as int).to_multiset() =~= before.to_multiset().remove(
                before[i as int],
            ));
            assert(views_of(v@).take(i as int) =~= before.take(i as int));
        }
        let mut p: usize = i;
        while p > 0 && !trade_le_exec(&v[p - 1], &x)
            invariant
                0 <= p <= i,
                forall|k: int| p <= k < i ==> !trade_le(
                    #[trigger] views_of(v@)[k],
                    x@,
                ),
            decreases p,
        {
            proof {
                assert(views_of(v@)[p as int - 1] == v@[p as int - 1]@);
            }
            p -= 1;
        }
        let ghost mid = views_of(v@);
        v.insert(p, x);
        proof {
            let after = views_of(v@);
            assert(after =~= mid.insert(p as int, x@));
            lemma_to_multiset_insert(mid, p as int, x@);
            assert(after.to_multiset() =~= views_of(old(v)@).to_multiset());
            assert forall|a: int, b: int| 0 <= a < b < i + 1 implies leq(
                #[trigger] after.take(i as int + 1)[a],
                #[trigger] after.take(i as int + 1)[b],
            ) by {
                let pa = p as int;
                assert(after[pa] == x@);
                if a < pa {
                    assert(after[a] == mid[a]);
                }
                if b < pa {
                    assert(after[b] == mid[b]);
                }
                if a > pa {
                    assert(after[a] == mid[a - 1]);
                }
                if b > pa {
                    assert(after[b] == mid[b - 1]);
                }
                if p > 0 {
                    assert(leq(mid[pa - 1], x@));
                }
                if b == pa {
                    // a < p: mid prefix sorted up to p-1, then the exit test
                    assert(leq(mid[a], mid[pa - 1]) || a == pa - 1);
                    assert(leq(after[a], after[b]));
                } else if a == pa {
                    // b > p: x is below everything it passed
                    assert(!leq(mid[b - 1], x@));
                    assert(leq(after[a], after[b]));
                } else {
                    assert(leq(after[a], after[b]));
                }
            }
            assert(sorted_by(views_of(v@).take(i as int + 1), leq));
        }
        i += 1;
    }
    proof {
        assert(views_of(v@).take(n as int) =~= views_of(v@));
    }
}

/// Sort prices ascending.
#[verifier::loop_isolation(false)]
pub fn sort_prices(v: &mut Vec<u64>)
    ensures
        final(v)@.len() == old(v)@.len(),
        final(v)@.to_multiset() == old(v)@.to_multiset(),
        sorted_by(final(v)@, price_leq()),
{
    proof {
        lemma_price_leq_total_ordering();
    }
    let ghost leq = price_leq();
    let n = v.len();
    if n == 0 {
        return;
    }
    let mut i: usize = 1;
    while i < n
        invariant
            1 <= i <= n,
            v@.len() == n,
            v@.to_multiset() == old(v)@.to_multiset(),
            sorted_by(v@.take(i as int), leq),
        decreases n - i,
    {
        let ghost before = v@;
        let x = v.remove(i);
        proof {
            broadcast use vstd::seq_lib::group_to_multiset_ensures;

            assert(v@.take(i as int) =~= before.take(i as int));
        }
        let mut p: usize = i;
        while p > 0 && v[p - 1] > x
            invariant
                0 <= p <= i,
                forall|k: int| p <= k < i ==> !leq(#[trigger] v@[k], x),
            decreases p,
        {
            p -= 1;
        }
        let ghost mid = v@;
        v.insert(p, x);
        proof {
            let after = v@;
            assert(after =~= mid.insert(p as int, x));
            lemma_to_multiset_insert(mid, p as int, x);
            assert(after.to_multiset() =~= old(v)@.to_multiset());
            assert forall|a: int, b: int| 0 <= a < b < i + 1 implies leq(
                #[trigger] after.take(i as int + 1)[a],
                #[trigger] after.take(i as int + 1)[b],
            ) by {
                let pa = p as int;
                if b == pa {
                    assert(leq(mid[a], mid[pa - 1]) || a == pa - 1);
                    assert(leq(after[a], after[b]));
                } else if a == pa {
                    assert(!leq(mid[b - 1], x));
                    assert(leq(after[a], after[b]));
                } else {
                    assert(leq(after[a], after[b]));
                }
            }
            assert(sorted_by(v@.take(i as int + 1), leq));
        }
        i += 1;
    }
    proof {
        assert(v@.take(n as int) =~= v@);
    }
}

/// Validity only depends on which trades there are, not on their order.
pub proof fn lemma_all_valid_permutation(a: Seq<TradeView>, b: Seq<TradeView>)
    requires
        a.to_multiset() == b.to_multiset(),
        all_valid(a),
    ensures
        all_valid(b),
{
    broadcast use vstd::seq_lib::group_to_multiset_ensures;

    assert forall|i: int| 0 <= i < b.len() implies valid_trade(#[trigger] b[i]) by {
        assert(b.contains(b[i]));
        assert(b.to_multiset().count(b[i]) > 0);
        assert(a.contains(b[i]));
        let j = choose|j: int| 0 <= j < a.len() && a[j] == b[i];
        assert(valid_trade(a[j]));
    }
}

/// The prices of a trade sequence, in the same order.
pub open spec fn prices_of(s: Seq<TradeView>) -> Seq<u64> {
    s.map_values(|t: TradeView| t.price)
}

/// Sum of a price sequence.
pub open spec fn sum_u64(s: Seq<u64>) -> int
    decreases s.len(),
{
    if s.len() == 0 {
        0
    } else {
        sum_u64(s.drop_last()) + s.last()
    }
}

/// The arithmetic mean of the prices, rounded down to whole units.
pub open spec fn mean_of(prices: Seq<u64>) -> int {
    sum_u64(prices) / prices.len() as int
}

/// The median of an ascending price sequence: the middle element, or for
/// an even count the rounded-down average of the two middle elements.
pub open spec fn median_of(sorted_prices: Seq<u64>) -> int {
    let n = sorted_prices.len() as int;
    if n % 2 == 0 {
        (sorted_prices[n / 2 - 1] + sorted_prices[n / 2]) / 2
    } else {
        sorted_prices[n / 2] as int
    }
}

proof fn lemma_sum_u64_bounds(s: Seq<u64>)
    requires
        forall|i: int| 0 <= i < s.len() ==> #[trigger] s[i] <= MAX_AMOUNT,
    ensures
        0 <= sum_u64(s) <= s.len() * MAX_AMOUNT,
    decreases s.len(),
{
    if s.len() > 0 {
        lemma_sum_u64_bounds(s.drop_last());
        assert(s.last() == s[s.len() - 1]);
    }
}

/// Total base quantity of the selected trades, as stored.
#[verifier::loop_isolation(false)]
fn sum_quantity_exec(v: &Vec<TradeEvent>, side: Option<Side>) -> (r: u128)
    requires
        all_valid(views_of(v@)),
        v@.len() <= MAX_BUCKET_TRADES,
    ensures
        r == sum_quantity(views_of(v@), side),
{
    let ghost s = views_of(v@);
    let n = v.len();
    let mut acc: u128 = 0;
    let mut i: usize = 0;
    while i < n
        invariant
            0 <= i <= n,
            acc == sum_quantity(s.take(i as int), side),
        decreases n - i,
    {
        proof {
            assert(s.take(i as int + 1).drop_last() =~= s.take(i as int));
            assert(s[i as int] == v@[i as int]@);
            assert(all_valid(s.take(i as int + 1)));
            lemma_sum_bounds(s.take(i as int + 1), 1, side);
        }
        if side_matches(side, v[i].side) {
            acc = acc + v[i].quantity as u128;
        }
        i += 1;
    }
    proof {
        assert(s.take(n as int) =~= s);
    }
    acc
}

/// Total quote volume of the selected trades.
#[verifier::loop_isolation(false)]
fn sum_quote_exec(v: &Vec<TradeEvent>, side: Option<Side>) -> (r: u128)
    requires
        all_valid(views_of(v@)),
        v@.len() <= MAX_BUCKET_TRADES,
    ensures
        r == sum_quote(views_of(v@), side),
{
    let ghost s = views_of(v@);
    let n = v.len();
    let mut acc: u128 = 0;
    let mut i: usize = 0;
    while i < n
        invariant
            0 <= i <= n,
            acc == sum_quote(s.take(i as int), side),
        decreases n - i,
    {
        proof {
            assert(s.take(i as int + 1).drop_last() =~= s.take(i as int));
            assert(s[i as int] == v@[i as int]@);
            assert(all_valid(s.take(i as int + 1)));
            lemma_sum_bounds(s.take(i as int), 1, side);
            lemma_sum_bounds(s.take(i as int + 1), 1, side);
            lemma_quote_term_bounds(s[i as int]);
        }
        if side_matches(side, v[i].side) {
            let term = (v[i].price as u128) * (v[i].quantity as u128) / (PRICE_SCALE as u128);
            acc = acc + term;
        }
        i += 1;
    }
    proof {
        assert(s.take(n as int) =~= s);
    }
    acc
}

/// Total USD volume of the selected trades, at the given quote price.
#[verifier::loop_isolation(false)]
fn sum_usd_exec(v: &Vec<TradeEvent>, quote_price: u64, side: Option<Side>) -> (r: u128)
    requires
        all_valid(views_of(v@)),
        v@.len() <= MAX_BUCKET_TRADES,
        1 <= quote_price <= MAX_AMOUNT,
    ensures
        r == sum_usd(views_of(v@), quote_price, side),
{
    let ghost s = views_of(v@);
    let n = v.len();
    let mut acc: u128 = 0;
    let mut i: usize = 0;
    while i < n
        invariant
            0 <= i <= n,
            acc == sum_usd(s.take(i as int), quote_price, side),
        decreases n - i,
    {
        proof {
            assert(s.take(i as int + 1).drop_last() =~= s.take(i as int));
            assert(s[i as int] == v@[i as int]@);
            assert(all_valid(s.take(i as int + 1)));
            lemma_sum_bounds(s.take(i as int), quote_price, side);
            lemma_sum_bounds(s.take(i as int + 1), quote_price, side);
            lemma_quote_term_bounds(s[i as int]);
            lemma_usd_term_bounds(s[i as int], quote_price);
        }
        if side_matches(side, v[i].side) {
            let qt = (v[i].price as u128) * (v[i].quantity as u128) / (PRICE_SCALE as u128);
            let term = qt * (quote_price as u128) / (PRICE_SCALE as u128);
            acc = acc + term;
        }
        i += 1;
    }
    proof {
        assert(s.take(n as int) =~= s);
    }
    acc
}

/// How many of the trades the side filter selects.
#[verifier::loop_isolation(false)]
fn count_exec(v: &Vec<TradeEvent>, side: Option<Side>) -> (r: u64)
    requires
        v@.len() <= MAX_BUCKET_TRADES,
    ensures
        r == count_on(views_of(v@), side),
{
    let ghost s = views_of(v@);
    let n = v.len();
    let mut acc: u64 = 0;
    let mut i: usize = 0;
    while i < n
        invariant
            0 <= i <= n,
            acc == count_on(s.take(i as int), side),
            acc <= i,
        decreases n - i,
    {
        proof {
            assert(s.take(i as int + 1).drop_last() =~= s.take(i as int));
            assert(s[i as int] == v@[i as int]@);
        }
        if side_matches(side, v[i].side) {
            acc = acc + 1;
        }
        i += 1;
    }
    proof {
        assert(s.take(n as int) =~= s);
    }
    acc
}

/// Everything selected is everything: the unfiltered count is the length.
pub proof fn lemma_count_all(s: Seq<TradeView>)
    ensures
        count_on(s, None) == s.len(),
    decreases s.len(),
{
    if s.len() > 0 {
        lemma_count_all(s.drop_last());
    }
}

/// Open, high, low, close, mean and median of one price series.
pub struct Ohlcv {
    pub open: u64,
    pub high: u64,
    pub low: u64,
    pub close: u64,
    pub mean: u64,
    pub median: u64,
}

/// Summarize a price series: open and close are the first and last prices
/// as given, the rest is computed from the ascending sort, which the
/// vector is left holding.
#[verifier::loop_isolation(false)]
pub fn aggregate(prices: &mut Vec<u64>) -> (r: Ohlcv)
    requires
        0 < old(prices)@.len() <= MAX_BUCKET_TRADES,
        forall|i: int| 0 <= i < old(prices)@.len() ==> #[trigger] old(prices)@[i] <= MAX_AMOUNT,
    ensures
        final(prices)@ == old(prices)@.sort_by(price_leq()),
        r.open == old(prices)@[0],
        r.close == old(prices)@[old(prices)@.len() - 1],
        r.low == final(prices)@[0],
        r.high == final(prices)@[final(prices)@.len() - 1],
        r.mean == mean_of(old(prices)@),
        r.median == median_of(old(prices)@.sort_by(price_leq())),
{
    let n = prices.len();
    let first = prices[0];
    let last = prices[n - 1];
    let mut total: u128 = 0;
    let mut i: usize = 0;
    while i < n
        invariant
            0 <= i <= n,
            total == sum_u64(prices@.take(i as int)),
            total <= i as int * MAX_AMOUNT,
        decreases n - i,
    {
        proof {
            assert(prices@.take(i as int + 1).drop_last() =~= prices@.take(i as int));
        }
        total = total + prices[i] as u128;
        i += 1;
    }
    proof {
        assert(prices@.take(n as int) =~= prices@);
        lemma_div_is_ordered(sum_u64(prices@), n as int * MAX_AMOUNT, n as int);
        lemma_div_multiples_vanish(MAX_AMOUNT as int, n as int);
        lemma_div_pos_is_pos(sum_u64(prices@), n as int);
    }
    let mean = (total / n as u128) as u64;
    let ghost before = prices@;
    sort_prices(prices);
    proof {
        lemma_price_leq_total_ordering();
        before.lemma_sort_by_ensures(price_leq());
        lemma_sorted_unique(prices@, before.sort_by(price_leq()), price_leq());
        broadcast use vstd::seq_lib::group_to_multiset_ensures;

        assert forall|i: int| 0 <= i < prices@.len() implies #[trigger] prices@[i]
            <= MAX_AMOUNT by {
            assert(prices@.contains(prices@[i]));
            assert(before.contains(prices@[i]));
            let j = choose|j: int| 0 <= j < before.len() && before[j] == prices@[i];
            assert(before[j] <= MAX_AMOUNT);
        }
    }
    let mid = n / 2;
    let median = if n % 2 == 0 {
        (prices[mid - 1] + prices[mid]) / 2
    } else {
        prices[mid]
    };
    Ohlcv { open: first, high: prices[n - 1], low: prices[0], close: last, mean, median }
}

/// A finalized bar: the full statistical summary of one instrument's
/// trades over one window. Volumes are fixed-point with
/// [`PRICE_SCALE`] units, like the prices they are derived from.
pub struct Bar {
    pub exchange: String,
    pub market: crate::trade::MarketKind,
    pub symbol: String,
    pub pair: String,
    pub bar_size: i64,
    /// The window's exclusive upper bound, in epoch milliseconds.
    pub timestamp: i64,
    /// Timestamp of the earliest trade in the window.
    pub timestamp_start: i64,
    pub open: u64,
    pub high: u64,
    pub low: u64,
    pub close: u64,
    pub mean: u64,
    pub median: u64,
    pub volume: u128,
    pub volume_sell: u128,
    pub volume_buy: u128,
    pub volume_quote: u128,
    pub volume_quote_sell: u128,
    pub volume_quote_buy: u128,
    pub volume_usd: u128,
    pub volume_usd_sell: u128,
    pub volume_usd_buy: u128,
    pub volume_btc: u128,
    pub volume_btc_sell: u128,
    pub volume_btc_buy: u128,
    pub vwap: u128,
    pub vwap_usd: u128,
    pub vwap_btc: u128,
    pub count: u64,
    pub count_sell: u64,
    pub count_buy: u64,
}

/// The mathematical value of a [`Bar`].
#[verifier::ext_equal]
pub ghost struct BarView {
    pub exchange: Seq<char>,
    pub market: crate::trade::MarketKind,
    pub symbol: Seq<char>,
    pub pair: Seq<char>,
    pub bar_size: i64,
    pub timestamp: i64,
    pub timestamp_start: i64,
    pub open: u64,
    pub high: u64,
    pub low: u64,
    pub close: u64,
    pub mean: u64,
    pub median: u64,
    pub volume: u128,
    pub volume_sell: u128,
    pub volume_buy: u128,
    pub volume_quote: u128,
    pub volume_quote_sell: u128,
    pub volume_quote_buy: u128,
    pub volume_usd: u128,
    pub volume_usd_sell: u128,
    pub volume_usd_buy: u128,
    pub volume_btc: u128,
    pub volume_btc_sell: u128,
    pub volume_btc_buy: u128,
    pub vwap: u128,
    pub vwap_usd: u128,
    pub vwap_btc: u128,
    pub count: u64,
    pub count_sell: u64,
    pub count_buy: u64,
}

impl View for Bar {
    type V = BarView;

    open spec fn view(&self) -> BarView {
        BarView {
            exchange: self.exchange@,
            market: self.market,
            symbol: self.symbol@,
            pair: self.pair@,
            bar_size: self.bar_size,
            timestamp: self.timestamp,
            timestamp_start: self.timestamp_start,
            open: self.open,
            high: self.high,
            low: self.low,
            close: self.close,
            mean: self.mean,
            median: self.median,
            volume: self.volume,
            volume_sell: self.volume_sell,
            volume_buy: self.volume_buy,
            volume_quote: self.volume_quote,
            volume_quote_sell: self.volume_quote_sell,
            volume_quote_buy: self.volume_quote_buy,
            volume_usd: self.volume_usd,
            volume_usd_sell: self.volume_usd_sell,
            volume_usd_buy: self.volume_usd_buy,
            volume_btc: self.volume_btc,
            volume_btc_sell: self.volume_btc_sell,
            volume_btc_buy: self.volume_btc_buy,
            vwap: self.vwap,
            vwap_usd: self.vwap_usd,
            vwap_btc: self.vwap_btc,
            count: self.count,
            count_sell: self.count_sell,
            count_buy: self.count_buy,
        }
    }
}

/// The one bar a set of trades denotes, whatever order they arrived in:
/// every field is computed from the trades' layout under [`trade_le`],
/// itself a function of the multiset alone. The casts are all exact: the
/// bounds in [`lemma_sum_bounds`] keep every value inside its field type.
pub open spec fn spec_bar(
    s: Seq<TradeView>,
    bar_size: i64,
    timestamp: i64,
    quote_price: u64,
    btc_price: u64,
) -> BarView
    recommends
        s.len() > 0,
{
    let sorted = s.sort_by(trade_leq());
    let pl = prices_of(sorted);
    let ps = pl.sort_by(price_leq());
    let n = s.len() as int;
    let base = sum_quantity(sorted, None);
    let base_sell = sum_quantity(sorted, Some(Side::Sell));
    let base_buy = sum_quantity(sorted, Some(Side::Buy));
    let quote = sum_quote(sorted, None);
    let quote_sell = sum_quote(sorted, Some(Side::Sell));
    let quote_buy = sum_quote(sorted, Some(Side::Buy));
    let usd = sum_usd(sorted, quote_price, None);
    let usd_sell = sum_usd(sorted, quote_price, Some(Side::Sell));
    let usd_buy = sum_usd(sorted, quote_price, Some(Side::Buy));
    BarView {
        exchange: sorted[0].exchange,
        market: sorted[0].market,
        symbol: sorted[0].symbol,
        pair: sorted[0].pair,
        bar_size,
        timestamp,
        timestamp_start: sorted[0].timestamp,
        open: sorted[0].price,
        high: ps[n - 1],
        low: ps[0],
        close: sorted[n - 1].price,
        mean: mean_of(pl) as u64,
        median: median_of(ps) as u64,
        volume: base as u128,
        volume_sell: base_sell as u128,
        volume_buy: base_buy as u128,
        volume_quote: quote as u128,
        volume_quote_sell: quote_sell as u128,
        volume_quote_buy: quote_buy as u128,
        volume_usd: usd as u128,
        volume_usd_sell: usd_sell as u128,
        volume_usd_buy: usd_buy as u128,
        volume_btc: to_btc(usd, btc_price) as u128,
        volume_btc_sell: to_btc(usd_sell, btc_price) as u128,
        volume_btc_buy: to_btc(usd_buy, btc_price) as u128,
        vwap: vwap_of(quote, base) as u128,
        vwap_usd: vwap_of(usd, base) as u128,
        vwap_btc: vwap_of(to_btc(usd, btc_price), base) as u128,
        count: n as u64,
        count_sell: count_on(sorted, Some(Side::Sell)) as u64,
        count_buy: count_on(sorted, Some(Side::Buy)) as u64,
    }
}

/// Build the bar for one finalized, non-empty set of trades, valued at the
/// given quote-currency and BTC prices.
#[verifier::loop_isolation(false)]
pub fn build_candlestick(
    bar_time: i64,
    bar_size: i64,
    trades: Vec<TradeEvent>,
    quote_price: u64,
    btc_price: u64,
) -> (bar: Bar)
    requires
        0 < trades@.len() <= MAX_BUCKET_TRADES,
        all_valid(views_of(trades@)),
        1 <= quote_price <= MAX_AMOUNT,
        1 <= btc_price <= MAX_AMOUNT,
    ensures
        bar@ == spec_bar(views_of(trades@), bar_size, bar_time, quote_price, btc_price),
{
    let ghost orig = views_of(trades@);
    let ghost sorted_spec = orig.sort_by(trade_leq());
    let mut trades = trades;
    sort_trades(&mut trades);
    proof {
        lemma_trade_le_total_ordering();
        orig.lemma_sort_by_ensures(trade_leq());
        lemma_sorted_unique(views_of(trades@), sorted_spec, trade_leq());
        assert(views_of(trades@) == sorted_spec);
        lemma_all_valid_permutation(orig, sorted_spec);
        broadcast use vstd::seq_lib::group_to_multiset_ensures;

        assert(sorted_spec.to_multiset().len() == sorted_spec.len());
        assert(orig.to_multiset().len() == orig.len());
        assert(sorted_spec.len() == orig.len());
    }
    let n = trades.len();
    let mut prices: Vec<u64> = Vec::new();
    let mut i: usize = 0;
    while i < n
        invariant
            0 <= i <= n,
            prices@ == prices_of(sorted_spec).take(i as int),
        decreases n - i,
    {
        proof {
            assert(prices_of(sorted_spec)[i as int] == sorted_spec[i as int].price);
            assert(sorted_spec[i as int] == trades@[i as int]@);
        }
        prices.push(trades[i].price);
        proof {
            assert(prices@ =~= prices_of(sorted_spec).take(i as int + 1));
        }
        i += 1;
    }
    proof {
        assert(prices_of(sorted_spec).take(n as int) =~= prices_of(sorted_spec));
        assert forall|k: int| 0 <= k < prices@.len() implies #[trigger] prices@[k]
            <= MAX_AMOUNT by {
            assert(prices@[k] == sorted_spec[k].price);
            assert(valid_trade(sorted_spec[k]));
        }
    }
    let timestamp_start = trades[0].timestamp;
    let stats = aggregate(&mut prices);
    let base = sum_quantity_exec(&trades, None);
    let base_sell = sum_quantity_exec(&trades, Some(Side::Sell));
    let base_buy = sum_quantity_exec(&trades, Some(Side::Buy));
    let quote = sum_quote_exec(&trades, None);
    let quote_sell = sum_quote_exec(&trades, Some(Side::Sell));
    let quote_buy = sum_quote_exec(&trades, Some(Side::Buy));
    let usd = sum_usd_exec(&trades, quote_price, None);
    let usd_sell = sum_usd_exec(&trades, quote_price, Some(Side::Sell));
    let usd_buy = sum_usd_exec(&trades, quote_price, Some(Side::Buy));
    let count_sell = count_exec(&trades, Some(Side::Sell));
    let count_buy = count_exec(&trades, Some(Side::Buy));
    proof {
        lemma_sum_bounds(sorted_spec, quote_price, None);
        lemma_sum_bounds(sorted_spec, quote_price, Some(Side::Sell));
        lemma_sum_bounds(sorted_spec, quote_price, Some(Side::Buy));
        lemma_count_all(sorted_spec);
    }
    let vol_btc = (usd * PRICE_SCALE as u128) / (btc_price as u128);
    let vol_btc_sell = (usd_sell * PRICE_SCALE as u128) / (btc_price as u128);
    let vol_btc_buy = (usd_buy * PRICE_SCALE as u128) / (btc_price as u128);
    let vwap = (quote * PRICE_SCALE as u128) / base;
    let vwap_usd = (usd * PRICE_SCALE as u128) / base;
    proof {
        lemma_div_pos_is_pos(usd as int * PRICE_SCALE as int, btc_price as int);
        lemma_div_nonincreasing(usd as int * PRICE_SCALE as int, btc_price as int);
    }
    let vwap_btc = crate::units::scale_div(vol_btc, base);
    let bar = Bar {
        exchange: trades[0].exchange.clone(),
        market: trades[0].market,
        symbol: trades[0].symbol.clone(),
        pair: trades[0].pair.clone(),
        bar_size,
        timestamp: bar_time,
        timestamp_start,
        open: stats.open,
        high: stats.high,
        low: stats.low,
        close: stats.close,
        mean: stats.mean,
        median: stats.median,
        volume: base,
        volume_sell: base_sell,
        volume_buy: base_buy,
        volume_quote: quote,
        volume_quote_sell: quote_sell,
        volume_quote_buy: quote_buy,
        volume_usd: usd,
        volume_usd_sell: usd_sell,
        volume_usd_buy: usd_buy,
        volume_btc: vol_btc,
        volume_btc_sell: vol_btc_sell,
        volume_btc_buy: vol_btc_buy,
        vwap,
        vwap_usd,
        vwap_btc,
        count: count_sell + count_buy,
        count_sell,
        count_buy,
    };
    proof {
        lemma_sum_sides(sorted_spec, quote_price);
        lemma_price_leq_total_ordering();
        let pl = prices_of(sorted_spec);
        pl.lemma_sort_by_ensures(price_leq());
        let ps = pl.sort_by(price_leq());
        broadcast use vstd::seq_lib::group_to_multiset_ensures;

        assert(pl.to_multiset().len() == pl.len());
        assert(ps.to_multiset().len() == ps.len());
        assert(ps.len() == orig.len());
        assert(bar@.count == sorted_spec.len() as u64);
        assert(bar@ =~= spec_bar(orig, bar_size, bar_time, quote_price, btc_price));
    }
    bar
}

/// The shape every finalized bar has: prices bracketed by low and high,
/// and the trade count split exactly between the two sides.
pub open spec fn wf_bar(b: BarView) -> bool {
    &&& b.low <= b.open <= b.high
    &&& b.low <= b.close <= b.high
    &&& b.count == b.count_buy + b.count_sell
    &&& b.count >= 1
}

/// Every bar built from a non-empty set of well-formed trades satisfies
/// [`wf_bar`].
pub proof fn lemma_bar_invariants(
    s: Seq<TradeView>,
    bar_size: i64,
    timestamp: i64,
    quote_price: u64,
    btc_price: u64,
)
    requires
        0 < s.len() <= MAX_BUCKET_TRADES,
        all_valid(s),
        1 <= quote_price <= MAX_AMOUNT,
        1 <= btc_price <= MAX_AMOUNT,
    ensures
        wf_bar(spec_bar(s, bar_size, timestamp, quote_price, btc_price)),
{
    lemma_trade_le_total_ordering();
    lemma_price_leq_total_ordering();
    s.lemma_sort_by_ensures(trade_leq());
    let sorted = s.sort_by(trade_leq());
    lemma_all_valid_permutation(s, sorted);
    let pl = prices_of(sorted);
    pl.lemma_sort_by_ensures(price_leq());
    let ps = pl.sort_by(price_leq());
    let n = s.len() as int;
    broadcast use vstd::seq_lib::group_to_multiset_ensures;

    assert(sorted.to_multiset().len() == sorted.len());
    assert(s.to_multiset().len() == s.len());
    assert(pl.to_multiset().len() == pl.len());
    assert(ps.to_multiset().len() == ps.len());
    assert(sorted.len() == n);
    assert(ps.len() == n);
    let leq = price_leq();
    assert forall|x: u64| pl.contains(x) implies exists|k: int|
        0 <= k < n && ps[k] == x by {
        assert(pl.to_multiset().count(x) > 0);
        assert(ps.contains(x));
    }
    assert(pl.contains(pl[0]));
    let k_open = choose|k: int| 0 <= k < n && ps[k] == pl[0];
    assert(pl[0] == sorted[0].price);
    if k_open > 0 {
        assert(leq(ps[0], ps[k_open]));
    }
    if k_open < n - 1 {
        assert(leq(ps[k_open], ps[n - 1]));
    }
    assert(pl.contains(pl[n - 1]));
    let k_close = choose|k: int| 0 <= k < n && ps[k] == pl[n - 1];
    assert(pl[n - 1] == sorted[n - 1].price);
    if k_close > 0 {
        assert(leq(ps[0], ps[k_close]));
    }
    if k_close < n - 1 {
        assert(leq(ps[k_close], ps[n - 1]));
    }
    lemma_count_all(sorted);
    lemma_sum_sides(sorted, quote_price);
    lemma_sum_bounds(sorted, quote_price, Some(Side::Sell));
    lemma_sum_bounds(sorted, quote_price, Some(Side::Buy));
}

/// Order independence: the same trades, in any arrival order, always
/// denote the same bar. Open and close are fixed by the `(timestamp,
/// trade_id)` layout, not by arrival.
pub proof fn lemma_bar_order_independence(
    s1: Seq<TradeView>,
    s2: Seq<TradeView>,
    bar_size: i64,
    timestamp: i64,
    quote_price: u64,
    btc_price: u64,
)
    requires
        s1.to_multiset() == s2.to_multiset(),
    ensures
        spec_bar(s1, bar_size, timestamp, quote_price, btc_price) == spec_bar(
            s2,
            bar_size,
            timestamp,
            quote_price,
            btc_price,
        ),
{
    lemma_trade_le_total_ordering();
    s1.lemma_sort_by_ensures(trade_leq());
    s2.lemma_sort_by_ensures(trade_leq());
    lemma_sorted_unique(s1.sort_by(trade_leq()), s2.sort_by(trade_leq()), trade_leq());
    broadcast use vstd::seq_lib::group_to_multiset_ensures;

    assert(s1.len() == s1.to_multiset().len());
    assert(s2.len() == s2.to_multiset().len());
    assert(s1.len() == s2.len());
    assert(s1.sort_by(trade_leq()) == s2.sort_by(trade_leq()));
    assert(spec_bar(s1, bar_size, timestamp, quote_price, btc_price) =~= spec_bar(
        s2,
        bar_size,
        timestamp,
        quote_price,
        btc_price,
    ));
}

} // verus!
