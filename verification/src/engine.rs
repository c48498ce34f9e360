//! The assembled engine: dedup, quote resolution, windowing and pricing
//! behind one pair of entry points.
//!
//! Trades go through [`Engine::on_trade`]: a trade whose pair cannot be
//! parsed or whose quote currency cannot be valued is dropped before it
//! reaches a bucket, everything else runs through the window aggregator.
//! Price messages go through [`Engine::on_price_sample`] and
//! [`Engine::on_price_snapshot`], which keep the EMA-smoothed price table;
//! [`Engine::on_trade_price`] feeds the table from stable-quoted trades.

use vstd::prelude::*;

verus! {

use crate::aggregator::classify;
use crate::aggregator::step;
use crate::aggregator::step_admitted;
use crate::aggregator::Aggregator;
use crate::aggregator::StepClass;
use crate::bar::Bar;
use crate::aggregator::bar_views_of;
use crate::price_cache::merged;
use crate::price_cache::PriceCache;
use crate::resolver::extract_base;
use crate::resolver::extract_quote;
use crate::resolver::find_slash;
use crate::resolver::quote_of;
use crate::resolver::base_of;
use crate::resolver::spec_resolve;
use crate::resolver::QuoteResolver;
use crate::strings::str_eq;
use crate::trade::MarketKind;
use crate::trade::TradeEvent;
use crate::units::ema_blend;
use crate::units::valid_amount;
use crate::units::MAX_INTERVAL;

/// What became of one trade handed to the engine.
#[derive(Clone, Copy, PartialEq, Eq, Structural, Debug)]
pub enum Disposition {
    /// The pair has no `/` separator: a data error, dropped.
    MalformedPair,
    /// The quote currency is neither stable nor priced: dropped.
    NotConvertible,
    /// Admitted to the window aggregator, with its step class and whether
    /// it actually entered a bucket.
    Processed(StepClass, bool),
}

/// The streaming engine: stablecoin configuration, price table, and the
/// window aggregator.
pub struct Engine {
    pub resolver: QuoteResolver,
    pub prices: PriceCache,
    pub aggregator: Aggregator,
}

impl Engine {
    /// The engine's invariant.
    pub open spec fn wf(&self) -> bool {
        self.prices.wf() && self.aggregator.wf()
    }

    /// An engine over the given configuration.
    pub fn new(resolver: QuoteResolver, prices: PriceCache, interval: i64) -> (r: Engine)
        requires
            1 <= interval <= MAX_INTERVAL,
            prices.wf(),
        ensures
            r.wf(),
            r.resolver == resolver,
            r.prices == prices,
            !r.aggregator@.started,
            r.aggregator@.interval == interval,
    {
        Engine { resolver, prices, aggregator: Aggregator::new(interval) }
    }

    /// Feed one trade. A trade with an unparsable pair or an unresolvable
    /// quote currency is dropped here, never reaching a bucket; the rest
    /// step the aggregator, and any bars of a closed window come back.
    pub fn on_trade(&mut self, trade: &TradeEvent) -> (r: (Disposition, Vec<Bar>))
        requires
            old(self).wf(),
        ensures
            final(self).wf(),
            final(self).resolver == old(self).resolver,
            final(self).prices == old(self).prices,
            find_slash(trade@.pair) == -1 ==> r.0 == Disposition::MalformedPair
                && *final(self) == *old(self) && r.1@.len() == 0,
            find_slash(trade@.pair) >= 0 && spec_resolve(
                old(self).resolver.stables(),
                old(self).prices@,
                quote_of(trade@.pair),
            ) is None ==> r.0 == Disposition::NotConvertible && *final(self) == *old(self)
                && r.1@.len() == 0,
            find_slash(trade@.pair) >= 0 && spec_resolve(
                old(self).resolver.stables(),
                old(self).prices@,
                quote_of(trade@.pair),
            ) is Some ==> {
                &&& r.0 == Disposition::Processed(
                    classify(old(self).aggregator@, trade@),
                    step_admitted(old(self).aggregator@, trade@),
                )
                &&& final(self).aggregator@ == step(
                    old(self).aggregator@,
                    trade@,
                    old(self).resolver.stables(),
                    old(self).prices@,
                ).0
                &&& bar_views_of(r.1@) == step(
                    old(self).aggregator@,
                    trade@,
                    old(self).resolver.stables(),
                    old(self).prices@,
                ).1
            },
    {
        let quote = match extract_quote(trade.pair.as_str()) {
            Some(q) => q,
            None => {
                return (Disposition::MalformedPair, Vec::new());
            },
        };
        if !self.resolver.is_good(quote, &self.prices) {
            return (Disposition::NotConvertible, Vec::new());
        }
        let (class, admitted, bars) = self.aggregator.on_trade(trade, &self.resolver, &self.prices);
        (Disposition::Processed(class, admitted), bars)
    }

    /// Blend one price sample into the table (the EMA smoothing path).
    pub fn on_price_sample(&mut self, currency: &str, sample: u64) -> (applied: bool)
        requires
            old(self).wf(),
        ensures
            final(self).wf(),
            final(self).resolver == old(self).resolver,
            final(self).aggregator == old(self).aggregator,
            applied == valid_amount(sample as int),
            !applied ==> final(self).prices == old(self).prices,
            applied && !old(self).prices@.dom().contains(currency@) ==> final(self).prices@
                == old(self).prices@.insert(currency@, sample),
            applied && old(self).prices@.dom().contains(currency@) ==> final(self).prices@
                == old(self).prices@.insert(
                currency@,
                ema_blend(old(self).prices@[currency@] as int, sample as int) as u64,
            ),
    {
        self.prices.update(currency, sample)
    }

    /// Merge a full snapshot of the shared price table (the refresh path).
    pub fn on_price_snapshot(&mut self, snapshot: &Vec<(String, u64)>)
        requires
            old(self).wf(),
        ensures
            final(self).wf(),
            final(self).resolver == old(self).resolver,
            final(self).aggregator == old(self).aggregator,
            final(self).prices@ == merged(old(self).prices@, snapshot@),
    {
        self.prices.merge(snapshot)
    }

    /// Derive a price sample from a trade, as the price updater does: a
    /// spot or swap trade quoted directly in USD or USDT prices its base
    /// asset. Anything else leaves the table alone.
    pub fn on_trade_price(&mut self, trade: &TradeEvent) -> (applied: bool)
        requires
            old(self).wf(),
        ensures
            final(self).wf(),
            final(self).resolver == old(self).resolver,
            final(self).aggregator == old(self).aggregator,
            !(trade@.market == MarketKind::Spot || trade@.market == MarketKind::InverseSwap
                || trade@.market == MarketKind::LinearSwap) ==> final(self).prices
                == old(self).prices && !applied,
            find_slash(trade@.pair) == -1 ==> final(self).prices == old(self).prices && !applied,
            find_slash(trade@.pair) >= 0 && !(quote_of(trade@.pair) == "USD"@ || quote_of(
                trade@.pair,
            ) == "USDT"@) ==> final(self).prices == old(self).prices && !applied,
            (trade@.market == MarketKind::Spot || trade@.market == MarketKind::InverseSwap
                || trade@.market == MarketKind::LinearSwap) && find_slash(trade@.pair) >= 0
                && (quote_of(trade@.pair) == "USD"@ || quote_of(trade@.pair) == "USDT"@) ==> {
                &&& applied == valid_amount(trade@.price as int)
                &&& !applied ==> final(self).prices == old(self).prices
                &&& applied && !old(self).prices@.dom().contains(base_of(trade@.pair))
                    ==> final(self).prices@ == old(self).prices@.insert(
                    base_of(trade@.pair),
                    trade@.price,
                )
                &&& applied && old(self).prices@.dom().contains(base_of(trade@.pair))
                    ==> final(self).prices@ == old(self).prices@.insert(
                    base_of(trade@.pair),
                    ema_blend(
                        old(self).prices@[base_of(trade@.pair)] as int,
                        trade@.price as int,
                    ) as u64,
                )
            },
    {
        let relevant = match trade.market {
            MarketKind::Spot => true,
            MarketKind::InverseSwap => true,
            MarketKind::LinearSwap => true,
            _ => false,
        };
        if !relevant {
            return false;
        }
        let quote = match extract_quote(trade.pair.as_str()) {
            Some(q) => q,
            None => {
                return false;
            },
        };
        if !(str_eq(quote, "USD") || str_eq(quote, "USDT")) {
            return false;
        }
        let base = match extract_base(trade.pair.as_str()) {
            Some(b) => b,
            None => {
                return false;
            },
        };
        self.prices.update(base, trade.price)
    }

    /// Whether every reference currency is priced; conversions should not
    /// start before this holds.
    pub fn is_ready(&self) -> (r: bool)
        requires
            self.wf(),
        ensures
            r == forall|j: int|
                0 <= j < self.prices.reference_currencies().len() ==> self.prices@.dom().contains(
                    #[trigger] self.prices.reference_currencies()[j],
                ),
    {
        self.prices.is_ready()
    }
}

} // verus!
