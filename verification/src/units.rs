//! Fixed-point units shared by the whole engine.
//!
//! A monetary amount `x` (a price in the quote currency, a quantity of the
//! base asset, or a currency's USD price) is stored as the integer
//! `x * PRICE_SCALE`, so one unit is one millionth. Every amount the engine
//! admits lies in `1 ..= MAX_AMOUNT`, which keeps all derived sums and
//! volume conversions inside `u128`.

use vstd::prelude::*;

verus! {

use vstd::arithmetic::div_mod::lemma_fundamental_div_mod;
use vstd::arithmetic::div_mod::lemma_hoist_over_denominator;

/// Number of integer units in one whole (1.0) of any monetary amount.
pub const PRICE_SCALE: u64 = 1_000_000;

/// Largest admissible amount: `PRICE_SCALE * PRICE_SCALE` units, i.e. one
/// million whole units. Larger values are treated as data errors.
pub const MAX_AMOUNT: u64 = 1_000_000_000_000;

/// Largest number of trades one bucket will hold.
pub const MAX_BUCKET_TRADES: usize = 1_000_000;

/// Largest admissible trade timestamp, in milliseconds since the epoch.
pub const MAX_TIMESTAMP: i64 = 1_000_000_000_000_000;

/// Largest admissible bar interval, in milliseconds.
pub const MAX_INTERVAL: i64 = 1_000_000_000_000;

/// `MAX_AMOUNT * PRICE_SCALE`: an upper bound for quotients carried by
/// [`scale_div`], and for the base volume of a full bucket.
pub const MAX_SUM: u128 = 1_000_000_000_000_000_000;

/// An amount the engine will store or convert with: positive and at most
/// [`MAX_AMOUNT`] units.
pub open spec fn valid_amount(p: int) -> bool {
    1 <= p <= MAX_AMOUNT
}

/// One step of the exponential moving average with smoothing factor 0.9:
/// the blend `0.9 * prev + 0.1 * sample`, rounded down to whole units.
pub open spec fn ema_blend(prev: int, sample: int) -> int {
    (9 * prev + sample) / 10
}

/// The blend of two valid amounts is a valid amount.
pub proof fn lemma_ema_blend_valid(prev: int, sample: int)
    requires
        valid_amount(prev),
        valid_amount(sample),
    ensures
        valid_amount(ema_blend(prev, sample)),
{
}

/// Fixed-point division: the floor of `a / b`, with the result scaled back
/// up by `PRICE_SCALE`. Computed in two steps so that the intermediate
/// products stay inside `u128` even when `a * PRICE_SCALE` would not.
pub fn scale_div(a: u128, b: u128) -> (r: u128)
    requires
        0 < b <= MAX_SUM,
        a <= MAX_SUM * b,
    ensures
        r as int == a as int * PRICE_SCALE as int / b as int,
{
    let q = a / b;
    let rem = a % b;
    proof {
        lemma_fundamental_div_mod(a as int, b as int);
        assert(q <= MAX_SUM) by (nonlinear_arith)
            requires
                a as int == b as int * q as int + rem as int,
                0 <= rem as int,
                0 < b,
                a <= MAX_SUM * b,
        ;
        lemma_hoist_over_denominator(
            rem as int * PRICE_SCALE as int,
            q as int * PRICE_SCALE as int,
            b as nat,
        );
        assert(rem as int * PRICE_SCALE as int + (q as int * PRICE_SCALE as int) * b as int
            == a as int * PRICE_SCALE as int) by (nonlinear_arith)
            requires
                a as int == b as int * q as int + rem as int,
        ;
    }
    q * (PRICE_SCALE as u128) + rem * (PRICE_SCALE as u128) / b
}

} // verus!
