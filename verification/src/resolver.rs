//! Quote-currency resolution.
//!
//! A trading pair is written `BASE/QUOTE`. The quote currency decides
//! whether a trade can be valued in USD: a recognized stablecoin is pegged
//! at exactly 1.0 USD and is never looked up, any other currency must have
//! an entry in the [`PriceCache`]. A trade whose quote currency is neither
//! is not convertible and is dropped before it reaches a bucket.

use vstd::prelude::*;

verus! {

use crate::price_cache::PriceCache;
use crate::strings::str_eq;
use crate::units::valid_amount;
use crate::units::PRICE_SCALE;
use vstd::string::StrSliceExecFns;

/// Index of the first `/` in a pair, or `-1` when there is none.
pub open spec fn find_slash(p: Seq<char>) -> int
    decreases p.len(),
{
    if p.len() == 0 {
        -1
    } else if p[0] == '/' {
        0
    } else if find_slash(p.drop_first()) == -1 {
        -1
    } else {
        find_slash(p.drop_first()) + 1
    }
}

/// The quote currency of a pair: everything after the first `/`.
pub open spec fn quote_of(p: Seq<char>) -> Seq<char> {
    p.skip(find_slash(p) + 1)
}

/// The base asset of a pair: everything before the first `/`.
pub open spec fn base_of(p: Seq<char>) -> Seq<char> {
    p.take(find_slash(p))
}

/// What [`find_slash`] finds: the first slash if any, `-1` otherwise.
pub proof fn lemma_find_slash_spec(p: Seq<char>)
    ensures
        find_slash(p) == -1 || 0 <= find_slash(p) < p.len(),
        find_slash(p) == -1 ==> forall|j: int| 0 <= j < p.len() ==> p[j] != '/',
        find_slash(p) >= 0 ==> find_slash(p) < p.len() && p[find_slash(p)] == '/'
            && forall|j: int| 0 <= j < find_slash(p) ==> p[j] != '/',
    decreases p.len(),
{
    if p.len() > 0 {
        let d = p.drop_first();
        lemma_find_slash_spec(d);
        if p[0] != '/' {
            if find_slash(d) == -1 {
                assert forall|j: int| 0 <= j < p.len() implies p[j] != '/' by {
                    if j > 0 {
                        assert(p[j] == d[j - 1]);
                    }
                }
            } else {
                let i = find_slash(d) + 1;
                assert(p[i] == d[i - 1]);
                assert forall|j: int| 0 <= j < i implies p[j] != '/' by {
                    if j > 0 {
                        assert(p[j] == d[j - 1]);
                    }
                }
            }
        }
    }
}

proof fn lemma_find_slash_at(p: Seq<char>, i: int)
    requires
        0 <= i < p.len(),
        p[i] == '/',
        forall|j: int| 0 <= j < i ==> p[j] != '/',
    ensures
        find_slash(p) == i,
    decreases i,
{
    if i > 0 {
        lemma_find_slash_at(p.drop_first(), i - 1);
    }
}

proof fn lemma_find_slash_absent(p: Seq<char>)
    requires
        forall|j: int| 0 <= j < p.len() ==> p[j] != '/',
    ensures
        find_slash(p) == -1,
    decreases p.len(),
{
    if p.len() > 0 {
        lemma_find_slash_absent(p.drop_first());
    }
}

/// The quote currency of a pair, or `None` for a malformed pair without a
/// separator (a data error: the caller drops the trade).
#[verifier::loop_isolation(false)]
pub fn extract_quote<'a>(pair: &'a str) -> (r: Option<&'a str>)
    ensures
        match r {
            Some(q) => find_slash(pair@) >= 0 && q@ == quote_of(pair@),
            None => find_slash(pair@) == -1,
        },
{
    let n = pair.unicode_len();
    let mut i: usize = 0;
    while i < n
        invariant
            0 <= i <= n,
            n == pair@.len(),
            forall|j: int| 0 <= j < i ==> pair@[j] != '/',
        decreases n - i,
    {
        if pair.get_char(i) == '/' {
            proof {
                lemma_find_slash_at(pair@, i as int);
            }
            let q = pair.substring_char(i + 1, n);
            proof {
                assert(q@ =~= quote_of(pair@));
            }
            return Some(q);
        }
        i += 1;
    }
    proof {
        lemma_find_slash_absent(pair@);
    }
    None
}

/// The base asset of a pair, or `None` for a malformed pair.
#[verifier::loop_isolation(false)]
pub fn extract_base<'a>(pair: &'a str) -> (r: Option<&'a str>)
    ensures
        match r {
            Some(b) => find_slash(pair@) >= 0 && b@ == base_of(pair@),
            None => find_slash(pair@) == -1,
        },
{
    let n = pair.unicode_len();
    let mut i: usize = 0;
    while i < n
        invariant
            0 <= i <= n,
            n == pair@.len(),
            forall|j: int| 0 <= j < i ==> pair@[j] != '/',
        decreases n - i,
    {
        if pair.get_char(i) == '/' {
            proof {
                lemma_find_slash_at(pair@, i as int);
            }
            let b = pair.substring_char(0, i);
            proof {
                assert(b@ =~= base_of(pair@));
            }
            return Some(b);
        }
        i += 1;
    }
    proof {
        lemma_find_slash_absent(pair@);
    }
    None
}

/// The USD price of a quote currency: exactly one whole unit for a
/// stablecoin, the cached price for anything else, absent when neither.
pub open spec fn spec_resolve(
    stables: Seq<Seq<char>>,
    prices: Map<Seq<char>, u64>,
    currency: Seq<char>,
) -> Option<u64> {
    if stables.contains(currency) {
        Some(PRICE_SCALE)
    } else if prices.dom().contains(currency) {
        Some(prices[currency])
    } else {
        None
    }
}

/// The stablecoin symbols recognized by default: all treated as worth
/// exactly 1.0 USD.
pub open spec fn default_stable_set() -> Seq<Seq<char>> {
    seq!["USD"@, "USDT"@, "USDC"@, "BUSD"@, "DAI"@, "PAX"@, "HUSD"@, "TUSD"@, "GUSD"@, "USDK"@]
}

/// The default stablecoin symbols as strings.
pub fn default_stable_coins() -> (r: Vec<String>)
    ensures
        r@.map_values(|s: String| s@) == default_stable_set(),
{
    let mut v: Vec<String> = Vec::new();
    v.push("USD".to_owned());
    v.push("USDT".to_owned());
    v.push("USDC".to_owned());
    v.push("BUSD".to_owned());
    v.push("DAI".to_owned());
    v.push("PAX".to_owned());
    v.push("HUSD".to_owned());
    v.push("TUSD".to_owned());
    v.push("GUSD".to_owned());
    v.push("USDK".to_owned());
    proof {
        assert(v@.map_values(|s: String| s@) =~= default_stable_set());
    }
    v
}

/// A pair quoted in a recognized stablecoin is convertible whatever the
/// price table holds, even an empty one: stablecoins are pegged, never
/// looked up.
pub proof fn lemma_stable_quote_always_convertible(
    stables: Seq<Seq<char>>,
    prices: Map<Seq<char>, u64>,
    pair: Seq<char>,
)
    requires
        find_slash(pair) >= 0,
        stables.contains(quote_of(pair)),
    ensures
        spec_resolve(stables, prices, quote_of(pair)) == Some(PRICE_SCALE),
{
}

/// The stablecoin configuration: which currencies count as pegged to USD.
pub struct QuoteResolver {
    stable_coins: Vec<String>,
}

impl QuoteResolver {
    /// The configured stablecoin symbols.
    pub closed spec fn stables(&self) -> Seq<Seq<char>> {
        self.stable_coins@.map_values(|s: String| s@)
    }

    /// A resolver with the given stablecoin set.
    pub fn new(stable_coins: Vec<String>) -> (r: QuoteResolver)
        ensures
            r.stables() == stable_coins@.map_values(|s: String| s@),
    {
        QuoteResolver { stable_coins }
    }

    /// A resolver recognizing the default stablecoin set.
    pub fn new_default() -> (r: QuoteResolver)
        ensures
            r.stables() == default_stable_set(),
    {
        QuoteResolver::new(default_stable_coins())
    }

    /// Whether a currency is a recognized stablecoin.
    #[verifier::loop_isolation(false)]
    pub fn is_stable(&self, currency: &str) -> (r: bool)
        ensures
            r == self.stables().contains(currency@),
    {
        let n = self.stable_coins.len();
        let mut i: usize = 0;
        while i < n
            invariant
                0 <= i <= n,
                n == self.stable_coins@.len(),
                forall|j: int| 0 <= j < i ==> self.stables()[j] != currency@,
            decreases n - i,
        {
            proof {
                assert(self.stables()[i as int] == self.stable_coins@[i as int]@);
            }
            if str_eq(self.stable_coins[i].as_str(), currency) {
                return true;
            }
            i += 1;
        }
        proof {
            assert(forall|j: int| 0 <= j < self.stables().len() ==> self.stables()[j] != currency@);
        }
        false
    }

    /// Whether a quote currency can be valued in USD at all.
    pub fn is_good(&self, quote: &str, prices: &PriceCache) -> (r: bool)
        requires
            prices.wf(),
        ensures
            r == (self.stables().contains(quote@) || prices@.dom().contains(quote@)),
            r == (spec_resolve(self.stables(), prices@, quote@) is Some),
    {
        self.is_stable(quote) || prices.get_price(quote).is_some()
    }

    /// The USD price of a quote currency, per [`spec_resolve`].
    pub fn resolve_price(&self, quote: &str, prices: &PriceCache) -> (r: Option<u64>)
        requires
            prices.wf(),
        ensures
            r == spec_resolve(self.stables(), prices@, quote@),
            r matches Some(p) ==> valid_amount(p as int),
    {
        if self.is_stable(quote) {
            Some(PRICE_SCALE)
        } else {
            prices.get_price(quote)
        }
    }

    /// Whether a trade on this pair can be valued in USD: the pair parses
    /// and its quote currency resolves.
    pub fn is_convertible(&self, pair: &str, prices: &PriceCache) -> (r: bool)
        requires
            prices.wf(),
        ensures
            r == (find_slash(pair@) >= 0 && spec_resolve(
                self.stables(),
                prices@,
                quote_of(pair@),
            ) is Some),
    {
        match extract_quote(pair) {
            Some(quote) => self.is_good(quote, prices),
            None => false,
        }
    }
}

} // verus!
