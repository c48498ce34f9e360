//! The currency-to-USD price table.
//!
//! The cache is an association list from currency symbols to fixed-point
//! USD prices, abstracted as a `Map<Seq<char>, u64>`. A background loop
//! outside this crate pulls snapshots from a shared store and hands them to
//! [`PriceCache::merge`]; the smoothing path feeds single samples through
//! [`PriceCache::update`], which applies an exponential moving average
//! biased toward history. The cache also carries the set of reference
//! currencies whose presence gates readiness: until all of them have an
//! entry, conversions must not start.

use vstd::prelude::*;

verus! {

use crate::strings::str_eq;
use crate::units::ema_blend;
use crate::units::lemma_ema_blend_valid;
use crate::units::valid_amount;
use crate::units::MAX_AMOUNT;

/// The map an association list denotes: later entries win.
pub open spec fn prices_map(s: Seq<(String, u64)>) -> Map<Seq<char>, u64>
    decreases s.len(),
{
    if s.len() == 0 {
        Map::empty()
    } else {
        prices_map(s.drop_last()).insert(s.last().0@, s.last().1)
    }
}

/// No two entries share a currency symbol.
pub open spec fn unique_keys(s: Seq<(String, u64)>) -> bool {
    forall|i: int, j: int| 0 <= i < j < s.len() ==> s[i].0@ != s[j].0@
}

/// Every stored price is a valid amount.
pub open spec fn valid_values(s: Seq<(String, u64)>) -> bool {
    forall|i: int| 0 <= i < s.len() ==> valid_amount(#[trigger] s[i].1 as int)
}

/// A snapshot folded into a price map, later entries winning; samples that
/// are not valid amounts are dropped as data errors.
pub open spec fn merged(m: Map<Seq<char>, u64>, s: Seq<(String, u64)>) -> Map<Seq<char>, u64>
    decreases s.len(),
{
    if s.len() == 0 {
        m
    } else if valid_amount(s.last().1 as int) {
        merged(m, s.drop_last()).insert(s.last().0@, s.last().1)
    } else {
        merged(m, s.drop_last())
    }
}

proof fn lemma_prices_map_absent(s: Seq<(String, u64)>, k: Seq<char>)
    requires
        forall|i: int| 0 <= i < s.len() ==> #[trigger] s[i].0@ != k,
    ensures
        !prices_map(s).dom().contains(k),
    decreases s.len(),
{
    if s.len() > 0 {
        assert(forall|i: int| 0 <= i < s.drop_last().len() ==> #[trigger] s.drop_last()[i].0@ != k);
        lemma_prices_map_absent(s.drop_last(), k);
    }
}

proof fn lemma_prices_map_found(s: Seq<(String, u64)>, i: int)
    requires
        unique_keys(s),
        0 <= i < s.len(),
    ensures
        prices_map(s).dom().contains(s[i].0@),
        prices_map(s)[s[i].0@] == s[i].1,
    decreases s.len(),
{
    if i < s.len() - 1 {
        assert(unique_keys(s.drop_last()));
        lemma_prices_map_found(s.drop_last(), i);
        assert(s.drop_last()[i] == s[i]);
        assert(s[i].0@ != s.last().0@);
    }
}

proof fn lemma_prices_map_update(s: Seq<(String, u64)>, i: int, e: (String, u64))
    requires
        unique_keys(s),
        0 <= i < s.len(),
        e.0@ == s[i].0@,
    ensures
        prices_map(s.update(i, e)) =~= prices_map(s).insert(e.0@, e.1),
    decreases s.len(),
{
    let t = s.update(i, e);
    if i == s.len() - 1 {
        assert(t.drop_last() =~= s.drop_last());
        assert(t.last() == e);
    } else {
        assert(unique_keys(s.drop_last()));
        lemma_prices_map_update(s.drop_last(), i, e);
        assert(t.drop_last() =~= s.drop_last().update(i, e));
        assert(t.last() == s.last());
        assert(s[i].0@ != s.last().0@);
    }
}

/// The most liquid currencies: the cache reports ready only once all of
/// them are priced, so a cold start never converts against a half-empty
/// table.
pub open spec fn default_reference_set() -> Seq<Seq<char>> {
    seq![
        "BTC"@, "ETH"@, "BNB"@, "XRP"@, "DOGE"@, "ADA"@, "MATIC"@, "LTC"@,
        "DOT"@, "SOL"@, "ATOM"@, "UNI"@, "AVAX"@, "LINK"@, "BCH"@,
    ]
}

/// The default reference currencies as strings.
pub fn default_reference_currencies() -> (r: Vec<String>)
    ensures
        r@.map_values(|s: String| s@) == default_reference_set(),
{
    let mut v: Vec<String> = Vec::new();
    v.push("BTC".to_owned());
    v.push("ETH".to_owned());
    v.push("BNB".to_owned());
    v.push("XRP".to_owned());
    v.push("DOGE".to_owned());
    v.push("ADA".to_owned());
    v.push("MATIC".to_owned());
    v.push("LTC".to_owned());
    v.push("DOT".to_owned());
    v.push("SOL".to_owned());
    v.push("ATOM".to_owned());
    v.push("UNI".to_owned());
    v.push("AVAX".to_owned());
    v.push("LINK".to_owned());
    v.push("BCH".to_owned());
    proof {
        assert(v@.map_values(|s: String| s@) =~= default_reference_set());
    }
    v
}

/// The currency price table with its readiness reference set.
pub struct PriceCache {
    entries: Vec<(String, u64)>,
    reference: Vec<String>,
}

impl View for PriceCache {
    type V = Map<Seq<char>, u64>;

    closed spec fn view(&self) -> Map<Seq<char>, u64> {
        prices_map(self.entries@)
    }
}

impl PriceCache {
    /// Entries hold distinct currencies and valid amounts.
    pub closed spec fn wf(&self) -> bool {
        unique_keys(self.entries@) && valid_values(self.entries@)
    }

    /// The currencies that must all be priced before the cache is ready.
    pub closed spec fn reference_currencies(&self) -> Seq<Seq<char>> {
        self.reference@.map_values(|s: String| s@)
    }

    /// An empty table gated on the given reference currencies.
    pub fn new(reference: Vec<String>) -> (c: PriceCache)
        ensures
            c.wf(),
            c@ == Map::<Seq<char>, u64>::empty(),
            c.reference_currencies() == reference@.map_values(|s: String| s@),
    {
        PriceCache { entries: Vec::new(), reference }
    }

    /// The price of a currency, if the table holds one.
    #[verifier::loop_isolation(false)]
    pub fn get_price(&self, currency: &str) -> (r: Option<u64>)
        requires
            self.wf(),
        ensures
            match r {
                Some(p) => self@.dom().contains(currency@) && self@[currency@] == p
                    && valid_amount(p as int),
                None => !self@.dom().contains(currency@),
            },
    {
        let n = self.entries.len();
        let mut i: usize = 0;
        while i < n
            invariant
                0 <= i <= n,
                n == self.entries@.len(),
                self.wf(),
                forall|j: int| 0 <= j < i ==> #[trigger] self.entries@[j].0@ != currency@,
            decreases n - i,
        {
            if str_eq(self.entries[i].0.as_str(), currency) {
                proof {
                    lemma_prices_map_found(self.entries@, i as int);
                }
                return Some(self.entries[i].1);
            }
            i += 1;
        }
        proof {
            lemma_prices_map_absent(self.entries@, currency@);
        }
        None
    }

    /// Record a price exactly as given (the merge path: last write wins).
    /// A sample that is not a valid amount is dropped.
    #[verifier::loop_isolation(false)]
    pub fn set_price(&mut self, currency: &str, price: u64) -> (applied: bool)
        requires
            old(self).wf(),
        ensures
            final(self).wf(),
            final(self).reference_currencies() == old(self).reference_currencies(),
            applied == valid_amount(price as int),
            applied ==> final(self)@ == old(self)@.insert(currency@, price),
            !applied ==> *final(self) == *old(self),
    {
        if price < 1 || price > MAX_AMOUNT {
            return false;
        }
        let n = self.entries.len();
        let mut i: usize = 0;
        while i < n
            invariant
                0 <= i <= n,
                n == self.entries@.len(),
                self.wf(),
                *self == *old(self),
                forall|j: int| 0 <= j < i ==> #[trigger] self.entries@[j].0@ != currency@,
            decreases n - i,
        {
            if str_eq(self.entries[i].0.as_str(), currency) {
                let key = self.entries[i].0.clone();
                proof {
                    lemma_prices_map_update(self.entries@, i as int, (key, price));
                }
                self.entries[i] = (key, price);
                return true;
            }
            i += 1;
        }
        let ghost pre = self.entries@;
        self.entries.push((currency.to_owned(), price));
        proof {
            assert(self.entries@.drop_last() =~= pre);
        }
        true
    }

    /// Blend a fresh sample into a currency's price: the first sample for a
    /// currency seeds its entry, any later one moves the stored price by
    /// one EMA step. A sample that is not a valid amount is dropped.
    #[verifier::loop_isolation(false)]
    pub fn update(&mut self, currency: &str, sample: u64) -> (applied: bool)
        requires
            old(self).wf(),
        ensures
            final(self).wf(),
            final(self).reference_currencies() == old(self).reference_currencies(),
            applied == valid_amount(sample as int),
            !applied ==> *final(self) == *old(self),
            applied && !old(self)@.dom().contains(currency@) ==> final(self)@ == old(self)@.insert(
                currency@,
                sample,
            ),
            applied && old(self)@.dom().contains(currency@) ==> final(self)@ == old(self)@.insert(
                currency@,
                ema_blend(old(self)@[currency@] as int, sample as int) as u64,
            ),
    {
        if sample < 1 || sample > MAX_AMOUNT {
            return false;
        }
        let n = self.entries.len();
        let mut i: usize = 0;
        while i < n
            invariant
                0 <= i <= n,
                n == self.entries@.len(),
                self.wf(),
                *self == *old(self),
                forall|j: int| 0 <= j < i ==> #[trigger] self.entries@[j].0@ != currency@,
            decreases n - i,
        {
            if str_eq(self.entries[i].0.as_str(), currency) {
                let key = self.entries[i].0.clone();
                let prev = self.entries[i].1;
                proof {
                    lemma_prices_map_found(self.entries@, i as int);
                    lemma_ema_blend_valid(prev as int, sample as int);
                }
                let blended = (9 * prev + sample) / 10;
                proof {
                    lemma_prices_map_update(self.entries@, i as int, (key, blended));
                }
                self.entries[i] = (key, blended);
                return true;
            }
            i += 1;
        }
        proof {
            lemma_prices_map_absent(self.entries@, currency@);
        }
        let ghost pre = self.entries@;
        self.entries.push((currency.to_owned(), sample));
        proof {
            assert(self.entries@.drop_last() =~= pre);
        }
        true
    }

    /// Fold a full snapshot into the table, later entries winning; entries
    /// whose price is not a valid amount are dropped.
    #[verifier::loop_isolation(false)]
    pub fn merge(&mut self, snapshot: &Vec<(String, u64)>)
        requires
            old(self).wf(),
        ensures
            final(self).wf(),
            final(self).reference_currencies() == old(self).reference_currencies(),
            final(self)@ == merged(old(self)@, snapshot@),
    {
        let n = snapshot.len();
        let mut i: usize = 0;
        while i < n
            invariant
                0 <= i <= n,
                n == snapshot@.len(),
                self.wf(),
                self.reference_currencies() == old(self).reference_currencies(),
                self@ == merged(old(self)@, snapshot@.take(i as int)),
            decreases n - i,
        {
            proof {
                assert(snapshot@.take(i as int + 1).drop_last() =~= snapshot@.take(i as int));
                assert(snapshot@.take(i as int + 1).last() == snapshot@[i as int]);
            }
            self.set_price(snapshot[i].0.as_str(), snapshot[i].1);
            i += 1;
        }
        proof {
            assert(snapshot@.take(n as int) =~= snapshot@);
        }
    }

    /// Whether every reference currency has a price. Conversions started
    /// before this holds could see a half-empty table.
    #[verifier::loop_isolation(false)]
    pub fn is_ready(&self) -> (r: bool)
        requires
            self.wf(),
        ensures
            r == forall|j: int|
                0 <= j < self.reference_currencies().len() ==> self@.dom().contains(
                    #[trigger] self.reference_currencies()[j],
                ),
    {
        let n = self.reference.len();
        let mut i: usize = 0;
        while i < n
            invariant
                0 <= i <= n,
                n == self.reference@.len(),
                self.wf(),
                forall|j: int| 0 <= j < i ==> self@.dom().contains(
                    #[trigger] self.reference_currencies()[j],
                ),
            decreases n - i,
        {
            proof {
                assert(self.reference_currencies()[i as int] == self.reference@[i as int]@);
            }
            if self.get_price(self.reference[i].as_str()).is_none() {
                return false;
            }
            i += 1;
        }
        true
    }
}

} // verus!
