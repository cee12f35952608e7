//! The per-instrument quoting engine and order reconciler.
//!
//! A market consumes already-parsed stream events plus a clock reading and
//! returns the outbound order commands; it owns the instrument's price and
//! spread history, its resting-order maps and its cooldown mark, and
//! mutates the shared portfolio on fills.  All quantities are fixed-point
//! integers (see `decimal::SCALE`).

use vstd::prelude::*;

verus! {

use crate::decimal::{SCALE, spec_parse_fixed, valid_decimal};
use crate::messages::{OpenOrders, OrderData};
use crate::portfolio::{
    AMOUNT_LIMIT, PRICE_LIMIT, Portfolio, Position, spec_apply_fill, spec_fill_applies,
    spec_has_usd_suffix, spec_pair_asset,
};

/// Ring-buffer capacity for price and spread history.
pub const BUFFER_SIZE: usize = 100;

/// Policy parameters of one instrument's quoting loop.
pub struct MarketConfig {
    /// Seconds between history samples.
    pub price_record_interval_s: u64,
    /// Quote-currency notional of one order, fixed-point.
    pub order_size_quote: u64,
    /// Risk-aversion factor, a small integer.
    pub risk_aversion: u64,
    /// Volatility floor, fixed-point fraction of the mid price.
    pub base_volatility_fp: u64,
    /// The liquidity term of the spread, precomputed, fixed-point.
    pub liquidity_term_fp: u64,
    /// Smallest spread ever quoted, fixed-point.
    pub min_spread_fp: u64,
    /// Seconds that must pass between order batches.
    pub order_cooldown_s: u64,
    /// Relative price tolerance under which a resting order counts as
    /// similar, as numerator and denominator.
    pub similar_tol_num: u64,
    pub similar_tol_den: u64,
    /// Weight of a fill price in the last-price blend, as numerator over
    /// denominator.
    pub price_update_num: u64,
    pub price_update_den: u64,
}

pub open spec fn config_ok(c: MarketConfig) -> bool {
    &&& 0 < c.price_update_den <= 1_000_000
    &&& c.price_update_num <= c.price_update_den
    &&& c.price_record_interval_s <= 0x1_0000_0000
    &&& c.order_cooldown_s <= 0x1_0000_0000
    &&& c.risk_aversion <= 1_000_000
    &&& c.base_volatility_fp <= SCALE
    &&& c.liquidity_term_fp <= SCALE
    &&& c.min_spread_fp <= 2 * SCALE
    &&& 0 < c.similar_tol_den <= 1_000_000_000
    &&& c.similar_tol_num <= 1_000_000_000
    &&& c.order_size_quote <= AMOUNT_LIMIT as u64
}

/// A resting limit order as tracked locally: its quoted price and volume.
#[derive(PartialEq, Eq, Structural, Clone, Copy, Debug)]
pub struct RestingOrder {
    pub price: u64,
    pub volume: u64,
}

pub open spec fn order_ok(o: RestingOrder) -> bool {
    0 < o.price <= PRICE_LIMIT as u64 && 0 < o.volume <= AMOUNT_LIMIT as u64
}

pub open spec fn orders_ok(s: Seq<(String, RestingOrder)>) -> bool {
    &&& forall|i: int, j: int| 0 <= i < j < s.len() ==> s[i].0@ != s[j].0@
    &&& forall|i: int| 0 <= i < s.len() ==> order_ok(#[trigger] s[i].1)
}

/// No order id appears on both sides of the book.
pub open spec fn disjoint_keys(
    bids: Seq<(String, RestingOrder)>,
    asks: Seq<(String, RestingOrder)>,
) -> bool {
    forall|i: int, j: int|
        0 <= i < bids.len() && 0 <= j < asks.len() ==> (#[trigger] bids[i]).0@ != (
        #[trigger] asks[j]).0@
}

/// The largest clock reading the engine accepts, comfortably past any real
/// epoch time.
pub const TIME_LIMIT: u64 = 0x4000_0000_0000_0000;

/// Integer square root, as a specification value.
pub open spec fn spec_isqrt(x: int) -> int
    decreases x,
{
    if x <= 0 {
        0
    } else {
        let s = spec_isqrt(x - 1);
        if (s + 1) * (s + 1) <= x {
            s + 1
        } else {
            s
        }
    }
}

pub proof fn lemma_spec_isqrt_bounds(x: int)
    requires
        x >= 0,
    ensures
        spec_isqrt(x) >= 0,
        spec_isqrt(x) * spec_isqrt(x) <= x,
        (spec_isqrt(x) + 1) * (spec_isqrt(x) + 1) > x,
    decreases x,
{
    if x == 0 {
    } else {
        lemma_spec_isqrt_bounds(x - 1);
        let s = spec_isqrt(x - 1);
        if (s + 1) * (s + 1) <= x {
            assert((s + 2) * (s + 2) > x) by (nonlinear_arith)
                requires
                    (s + 1) * (s + 1) > x - 1,
                    s >= 0,
            ;
        }
    }
}

pub proof fn lemma_isqrt_unique(x: int, r: int)
    requires
        x >= 0,
        r >= 0,
        r * r <= x,
        (r + 1) * (r + 1) > x,
    ensures
        r == spec_isqrt(x),
{
    lemma_spec_isqrt_bounds(x);
    let s = spec_isqrt(x);
    if r < s {
        assert((r + 1) * (r + 1) <= s * s) by (nonlinear_arith)
            requires
                0 <= r,
                r + 1 <= s,
        ;
    }
    if s < r {
        assert((s + 1) * (s + 1) <= r * r) by (nonlinear_arith)
            requires
                0 <= s,
                s + 1 <= r,
        ;
    }
}

/// Integer square root: the largest `r` with `r * r <= x`.
pub fn isqrt(x: u128) -> (r: u64)
    requires
        x < 0x1_0000_0000_0000_0000_0000_0000_0000,
    ensures
        r as int * r as int <= x as int,
        (r as int + 1) * (r as int + 1) > x as int,
        r as int == spec_isqrt(x as int),
{
    let mut lo: u64 = 0;
    let mut hi: u64 = 0x100_0000_0000_0000;
    proof {
        assert((hi as int + 1) * (hi as int + 1) > x as int) by (nonlinear_arith)
            requires
                hi as int == 0x100_0000_0000_0000,
                x < 0x1_0000_0000_0000_0000_0000_0000_0000,
        ;
    }
    while lo < hi
        invariant
            lo <= hi <= 0x100_0000_0000_0000,
            lo as int * lo as int <= x as int,
            (hi as int + 1) * (hi as int + 1) > x as int,
        decreases hi - lo,
    {
        let mid: u64 = lo + (hi - lo + 1) / 2;
        proof {
            assert(mid as int * mid as int <= 0x1_0000_0000_0000_0000_0000_0000_0000)
                by (nonlinear_arith)
                requires
                    0 <= mid as int <= 0x100_0000_0000_0000,
            ;
        }
        if (mid as u128) * (mid as u128) <= x {
            lo = mid;
        } else {
            hi = mid - 1;
        }
    }
    proof {
        lemma_isqrt_unique(x as int, lo as int);
    }
    lo
}

/// Mean of the samples, truncated; zero on an empty history.
pub open spec fn spec_mean(s: Seq<u64>) -> int {
    if s.len() == 0 {
        0
    } else {
        sum_seq(s) / s.len() as int
    }
}

pub open spec fn sum_seq(s: Seq<u64>) -> int
    decreases s.len(),
{
    if s.len() == 0 {
        0
    } else {
        sum_seq(s.drop_last()) + s.last()
    }
}

/// Sum of squared deviations from `mean`.
pub open spec fn sumsq_dev(s: Seq<u64>, mean: int) -> int
    decreases s.len(),
{
    if s.len() == 0 {
        0
    } else {
        sumsq_dev(s.drop_last(), mean) + (s.last() - mean) * (s.last() - mean)
    }
}

/// Population variance of the samples, truncated.
pub open spec fn spec_variance(s: Seq<u64>) -> int {
    if s.len() == 0 {
        0
    } else {
        sumsq_dev(s, spec_mean(s)) / s.len() as int
    }
}

pub proof fn lemma_sum_take_step(s: Seq<u64>, i: int)
    requires
        0 <= i < s.len(),
    ensures
        sum_seq(s.take(i + 1)) == sum_seq(s.take(i)) + s[i],
{
    assert(s.take(i + 1).drop_last() =~= s.take(i));
    assert(s.take(i + 1).last() == s[i]);
}

pub proof fn lemma_sumsq_take_step(s: Seq<u64>, m: int, i: int)
    requires
        0 <= i < s.len(),
    ensures
        sumsq_dev(s.take(i + 1), m) == sumsq_dev(s.take(i), m) + (s[i] - m) * (s[i] - m),
{
    assert(s.take(i + 1).drop_last() =~= s.take(i));
    assert(s.take(i + 1).last() == s[i]);
}

/// Quoted prices are rounded to the inferred precision, held inside the
/// fixed-point scale.
pub open spec fn spec_eff_decimals(d: u8) -> u8 {
    if d > 8 {
        8u8
    } else {
        d
    }
}

/// A fill price blended into the last price with the configured weights.
pub open spec fn spec_blend(c: MarketConfig, last: int, price: int) -> int {
    ((c.price_update_den - c.price_update_num) * last + c.price_update_num * price)
        / c.price_update_den as int
}

/// The inventory-skew term of the pricing model: risk aversion times
/// squared volatility, fixed-point.
pub open spec fn spec_skew(c: MarketConfig, vol_fp: int) -> int {
    c.risk_aversion * vol_fp * vol_fp / SCALE as int
}

/// Volatility estimate: standard deviation of the history over the mid
/// price plus the configured floor; the bare floor while fewer than two
/// samples exist.  The estimate is capped at one — a guard that binds
/// only in degenerate regimes (volatility at or above the whole price).
pub open spec fn spec_volatility(prices: Seq<u64>, mid: int, c: MarketConfig) -> int {
    if prices.len() < 2 || mid <= 0 {
        c.base_volatility_fp as int
    } else {
        let raw = spec_isqrt(spec_variance(prices)) * SCALE / mid + c.base_volatility_fp;
        if raw > SCALE {
            SCALE as int
        } else {
            raw
        }
    }
}

/// Reserve price: the mid price skewed away from the held inventory.  A
/// positive delta (underweight) skews it up, toward buying; a negative one
/// skews it down.  The skew adjustment is capped at one whole mid price,
/// a guard that binds only in degenerate regimes (a skew term over one):
/// the downward quote then stops at zero and the upward one at twice the
/// mid price.
pub open spec fn spec_reserve_price(mid: int, delta: int, skew: int) -> int {
    let raw = mid * skew / SCALE as int;
    let adj = if raw > mid {
        mid
    } else {
        raw
    };
    if delta > 0 {
        mid + adj
    } else if delta < 0 {
        mid - adj
    } else {
        mid
    }
}

/// Optimal half-spread: the skew term plus the liquidity term, floored at
/// the configured minimum.  The cap at twice the scale keeps the quoted
/// bid nonnegative and binds only in degenerate regimes (a spread of two
/// whole prices).
pub open spec fn spec_optimal_spread(c: MarketConfig, skew: int) -> int {
    let s = skew + c.liquidity_term_fp;
    let floored = if s < c.min_spread_fp {
        c.min_spread_fp as int
    } else {
        s
    };
    if floored > 2 * SCALE {
        2 * SCALE as int
    } else {
        floored
    }
}

/// Quoted bid and ask: the reserve price moved down or up by half the
/// spread.
pub open spec fn spec_bid_price(reserve: int, spread: int) -> int {
    reserve - reserve * spread / (2 * SCALE as int)
}

pub open spec fn spec_ask_price(reserve: int, spread: int) -> int {
    reserve + reserve * spread / (2 * SCALE as int)
}

/// Order volume: the configured notional at the quoted price, capped at
/// the ledger's amount bound.
pub open spec fn spec_order_size(notional: int, price: int) -> int {
    let v = notional * SCALE / price;
    if v > AMOUNT_LIMIT as int {
        AMOUNT_LIMIT as int
    } else {
        v
    }
}

/// Whether a resting order's price lies within the relative tolerance
/// `num / den` of the candidate price.
pub open spec fn spec_similar(resting: int, price: int, num: int, den: int) -> bool {
    (if resting >= price {
        resting - price
    } else {
        price - resting
    }) * den < num * price
}

/// The per-instrument engine state.
pub struct Market {
    /// Instrument name, e.g. "ETH/USD".
    pub pair: String,
    /// Decimal places quoted prices are rounded to, inferred from ticks.
    pub decimals: u8,
    pub mid_price: u64,
    pub last_price: u64,
    /// Recent mid-price samples, oldest first.
    pub prices: Vec<u64>,
    pub prices_last_updated: u64,
    /// Recent relative spread samples, oldest first.
    pub spreads: Vec<i64>,
    pub spreads_last_updated: u64,
    pub vol_24hr: u64,
    /// Resting buy orders by order id.
    pub bid_orders: Vec<(String, RestingOrder)>,
    /// Resting sell orders by order id.
    pub ask_orders: Vec<(String, RestingOrder)>,
    /// When the last order batch went out.
    pub last_order_time: u64,
    pub config: MarketConfig,
}

impl Market {
    pub open spec fn wf(self) -> bool {
        &&& config_ok(self.config)
        &&& self.mid_price <= PRICE_LIMIT as u64
        &&& self.last_price <= PRICE_LIMIT as u64
        &&& self.prices@.len() <= BUFFER_SIZE
        &&& forall|i: int|
            0 <= i < self.prices@.len() ==> 0 < #[trigger] self.prices@[i] <= PRICE_LIMIT as u64
        &&& self.spreads@.len() <= BUFFER_SIZE
        &&& orders_ok(self.bid_orders@)
        &&& orders_ok(self.ask_orders@)
        &&& disjoint_keys(self.bid_orders@, self.ask_orders@)
        &&& self.prices_last_updated <= TIME_LIMIT
        &&& self.spreads_last_updated <= TIME_LIMIT
        &&& self.last_order_time <= TIME_LIMIT
    }

    /// A fresh engine: no prices seen, no orders resting, sentinel
    /// precision until the first tick shows the real one.
    pub fn new(pair: String, config: MarketConfig) -> (r: Market)
        requires
            config_ok(config),
        ensures
            r.wf(),
            r.pair == pair,
            r.mid_price == 0,
            r.last_price == 0,
            r.decimals == 99,
            r.prices@.len() == 0,
            r.spreads@.len() == 0,
            r.vol_24hr == 0,
            r.prices_last_updated == 0,
            r.spreads_last_updated == 0,
            r.bid_orders@.len() == 0,
            r.ask_orders@.len() == 0,
            r.last_order_time == 0,
            r.config == config,
    {
        Market {
            pair,
            decimals: 99,
            mid_price: 0,
            last_price: 0,
            prices: Vec::new(),
            prices_last_updated: 0,
            spreads: Vec::new(),
            spreads_last_updated: 0,
            vol_24hr: 0,
            bid_orders: Vec::new(),
            ask_orders: Vec::new(),
            last_order_time: 0,
            config,
        }
    }

    pub fn get_mid_price(&self) -> (r: u64)
        ensures
            r == self.mid_price,
    {
        self.mid_price
    }

    pub fn get_last_price(&self) -> (r: u64)
        ensures
            r == self.last_price,
    {
        self.last_price
    }

    /// Blends a fill price into the last price with the configured
    /// weights.
    pub fn set_last_price(&mut self, price: u64)
        requires
            old(self).wf(),
            price <= PRICE_LIMIT as u64,
        ensures
            *final(self) == (Market { last_price: final(self).last_price, ..*old(self) }),
            final(self).last_price as int == spec_blend(
                old(self).config,
                old(self).last_price as int,
                price as int,
            ),
            final(self).wf(),
    {
        let nu = self.config.price_update_num;
        let de = self.config.price_update_den;
        let lp = self.last_price;
        proof {
            assert((de - nu) as int * lp as int + nu as int * price as int <= de as int
                * PRICE_LIMIT as int) by (nonlinear_arith)
                requires
                    0 <= nu as int <= de as int,
                    de as int <= 1_000_000,
                    0 <= lp as int <= PRICE_LIMIT as int,
                    0 <= price as int <= PRICE_LIMIT as int,
            ;
            assert(de as int * PRICE_LIMIT as int / de as int == PRICE_LIMIT as int)
                by (nonlinear_arith)
                requires
                    de as int > 0,
            ;
            assert(((de - nu) as int * lp as int + nu as int * price as int) / de as int
                <= de as int * PRICE_LIMIT as int / de as int) by (nonlinear_arith)
                requires
                    de as int > 0,
                    (de - nu) as int * lp as int + nu as int * price as int <= de as int
                        * PRICE_LIMIT as int,
                    (de - nu) as int * lp as int + nu as int * price as int >= 0,
            ;
        }
        let blended: u128 = (((de - nu) as u128) * (lp as u128) + (nu as u128)
            * (price as u128)) / (de as u128);
        self.last_price = blended as u64;
    }

    /// Volatility estimate from the price history (see `spec_volatility`).
    pub fn get_volatility(&self) -> (r: u64)
        requires
            self.wf(),
        ensures
            r as int == spec_volatility(self.prices@, self.mid_price as int, self.config),
            r <= SCALE,
    {
        let n = self.prices.len();
        if n < 2 || self.mid_price == 0 {
            return self.config.base_volatility_fp;
        }
        let ghost pv = self.prices@;

        let mut sum: u64 = 0;
        let mut i: usize = 0;
        proof {
            assert(pv.take(0) =~= Seq::<u64>::empty());
        }
        while i < n
            invariant
                self.wf(),
                pv == self.prices@,
                n == pv.len(),
                2 <= n <= BUFFER_SIZE,
                0 <= i <= n,
                sum as int == sum_seq(pv.take(i as int)),
                sum as int <= (i as int) * (PRICE_LIMIT as int),
            decreases n - i,
        {
            proof {
                lemma_sum_take_step(pv, i as int);
            }
            sum = sum + self.prices[i];
            i += 1;
        }
        proof {
            assert(pv.take(n as int) =~= pv);
        }
        let mean: u64 = sum / (n as u64);
        proof {
            assert(mean as int <= PRICE_LIMIT as int) by (nonlinear_arith)
                requires
                    mean as int == sum as int / n as int,
                    n as int >= 2,
                    sum as int >= 0,
                    sum as int <= (n as int) * (PRICE_LIMIT as int),
                    PRICE_LIMIT as int >= 0,
            ;
            assert(mean as int == spec_mean(pv));
        }

        let mut ssq: u128 = 0;
        let mut i: usize = 0;
        proof {
            assert(pv.take(0) =~= Seq::<u64>::empty());
        }
        while i < n
            invariant
                self.wf(),
                pv == self.prices@,
                n == pv.len(),
                2 <= n <= BUFFER_SIZE,
                0 <= i <= n,
                mean <= PRICE_LIMIT as u64,
                ssq as int == sumsq_dev(pv.take(i as int), mean as int),
                ssq as int <= (i as int) * 0x4_0000_0000_0000_0000_0000_0000,
            decreases n - i,
        {
            proof {
                lemma_sumsq_take_step(pv, mean as int, i as int);
            }
            let p = self.prices[i];
            let d: i128 = p as i128 - mean as i128;
            proof {
                assert(d as int * d as int <= 0x4_0000_0000_0000_0000_0000_0000)
                    by (nonlinear_arith)
                    requires
                        -0x2_0000_0000_0000 <= d as int <= 0x2_0000_0000_0000,
                ;
                assert(d as int * d as int >= 0) by (nonlinear_arith);
            }
            let sq: u128 = (d * d) as u128;
            ssq = ssq + sq;
            i += 1;
        }
        proof {
            assert(pv.take(n as int) =~= pv);
        }
        let var: u128 = ssq / (n as u128);
        proof {
            assert(var as int <= ssq as int) by (nonlinear_arith)
                requires
                    var as int == ssq as int / n as int,
                    n as int >= 2,
                    ssq as int >= 0,
            ;
            assert(var as int == spec_variance(pv));
        }
        let root: u64 = isqrt(var);
        let raw: u128 = (root as u128) * (SCALE as u128) / (self.mid_price as u128)
            + (self.config.base_volatility_fp as u128);
        if raw > SCALE as u128 {
            SCALE
        } else {
            raw as u64
        }
    }

    /// The inventory-skew term for a given volatility.
    fn skew_term(&self, vol_fp: u64) -> (r: u64)
        requires
            self.wf(),
            vol_fp <= SCALE,
        ensures
            r as int == spec_skew(self.config, vol_fp as int),
            r <= 100_000_000_000_000,
    {
        let g = self.config.risk_aversion;
        proof {
            assert(g as int * vol_fp as int * vol_fp as int <= 100_000_000_000_000
                * (SCALE as int) && g as int * vol_fp as int >= 0 && g as int
                * vol_fp as int <= 100_000_000_000_000 && g as int * vol_fp as int
                * vol_fp as int >= 0) by (nonlinear_arith)
                requires
                    0 <= g as int <= 1_000_000,
                    0 <= vol_fp as int <= 100_000_000,
                    SCALE as int == 100_000_000,
            ;
            assert(g as int * vol_fp as int * vol_fp as int / SCALE as int
                <= 100_000_000_000_000) by (nonlinear_arith)
                requires
                    0 <= g as int * vol_fp as int * vol_fp as int <= 100_000_000_000_000 * (
                    SCALE as int),
                    SCALE as int == 100_000_000,
            ;
        }
        let r: u128 = (g as u128) * (vol_fp as u128) * (vol_fp as u128) / (SCALE as u128);
        r as u64
    }

    /// Reserve price for the current mid price under an inventory
    /// pressure: skewed up when underweight, down when overweight, never
    /// below zero (see `spec_reserve_price`).
    pub fn get_reserve_price(&self, delta: i64, vol_fp: u64) -> (r: u64)
        requires
            self.wf(),
            vol_fp <= SCALE,
        ensures
            r as int == spec_reserve_price(
                self.mid_price as int,
                delta as int,
                spec_skew(self.config, vol_fp as int),
            ),
            delta > 0 ==> r >= self.mid_price,
            delta == 0 ==> r == self.mid_price,
            delta < 0 ==> r <= self.mid_price,
            r <= 2 * self.mid_price,
            r <= 0x4_0000_0000_0000,
    {
        let skew = self.skew_term(vol_fp);
        let mid = self.mid_price;
        proof {
            assert(mid as int * skew as int <= 0x2_0000_0000_0000 * 100_000_000_000_000
                && mid as int * skew as int >= 0) by (nonlinear_arith)
                requires
                    0 <= mid as int <= 0x2_0000_0000_0000,
                    0 <= skew as int <= 100_000_000_000_000,
            ;
        }
        let raw: u128 = (mid as u128) * (skew as u128) / (SCALE as u128);
        let adj: u64 = if raw > mid as u128 {
            mid
        } else {
            raw as u64
        };
        if delta > 0 {
            mid + adj
        } else if delta < 0 {
            mid - adj
        } else {
            mid
        }
    }

    /// Optimal spread for a given volatility (see `spec_optimal_spread`).
    pub fn get_optimal_spread(&self, vol_fp: u64) -> (r: u64)
        requires
            self.wf(),
            vol_fp <= SCALE,
        ensures
            r as int == spec_optimal_spread(self.config, spec_skew(self.config, vol_fp as int)),
            r <= 2 * SCALE,
    {
        let skew = self.skew_term(vol_fp);
        let s: u64 = skew + self.config.liquidity_term_fp;
        let floored: u64 = if s < self.config.min_spread_fp {
            self.config.min_spread_fp
        } else {
            s
        };
        if floored > 2 * SCALE {
            2 * SCALE
        } else {
            floored
        }
    }

    /// The order volume that spends the configured notional at this price.
    pub fn order_size(&self, price: u64) -> (r: u64)
        requires
            self.wf(),
            price >= 1,
        ensures
            r as int == spec_order_size(self.config.order_size_quote as int, price as int),
            1 <= spec_order_size(self.config.order_size_quote as int, price as int)
                ==> 0 < r <= AMOUNT_LIMIT as u64,
    {
        let q = self.config.order_size_quote;
        proof {
            assert(q as int * SCALE as int <= 0x2_0000_0000_0000 * 100_000_000 && q as int
                * SCALE as int >= 0) by (nonlinear_arith)
                requires
                    0 <= q as int <= 0x2_0000_0000_0000,
                    SCALE as int == 100_000_000,
            ;
        }
        let v: u128 = (q as u128) * (SCALE as u128) / (price as u128);
        if v > AMOUNT_LIMIT as u128 {
            AMOUNT_LIMIT as u64
        } else {
            v as u64
        }
    }

    /// Volume that spends the configured notional buying at this price.
    pub fn get_bid_size(&self, bid_price: u64) -> (r: u64)
        requires
            self.wf(),
            bid_price >= 1,
        ensures
            r as int == spec_order_size(self.config.order_size_quote as int, bid_price as int),
    {
        self.order_size(bid_price)
    }

    /// Volume that spends the configured notional selling at this price.
    pub fn get_ask_size(&self, ask_price: u64) -> (r: u64)
        requires
            self.wf(),
            ask_price >= 1,
        ensures
            r as int == spec_order_size(self.config.order_size_quote as int, ask_price as int),
    {
        self.order_size(ask_price)
    }

    /// The portfolio's pressure signal for this instrument.
    pub fn get_target_delta(&self, portfolio: &Portfolio) -> (r: i64)
        requires
            portfolio.wf(),
        ensures
            r as int == crate::portfolio::spec_target_delta(
                *portfolio,
                spec_pair_asset(self.pair@),
            ),
    {
        portfolio.get_pair_target_delta(self.pair.clone())
    }

    /// The pricing model's two outputs for the current state: reserve
    /// price and optimal spread.
    pub fn get_ans_params(&self, delta: i64) -> (r: (u64, u64))
        requires
            self.wf(),
        ensures
            ({
                let vol = spec_volatility(
                    self.prices@,
                    self.mid_price as int,
                    self.config,
                );
                &&& r.0 as int == spec_reserve_price(
                    self.mid_price as int,
                    delta as int,
                    spec_skew(self.config, vol),
                )
                &&& r.1 as int == spec_optimal_spread(
                    self.config,
                    spec_skew(self.config, vol),
                )
            }),
    {
        let vol = self.get_volatility();
        let reserve = self.get_reserve_price(delta, vol);
        let spread = self.get_optimal_spread(vol);
        (reserve, spread)
    }

    /// Whether a resting order on one side already sits within the
    /// configured relative tolerance of the candidate price.
    pub fn similar_order_exists(
        price: u64,
        orders: &Vec<(String, RestingOrder)>,
        tol_num: u64,
        tol_den: u64,
    ) -> (r: bool)
        requires
            orders_ok(orders@),
            price <= 0x8000_0000_0000_0000,
            tol_num <= 1_000_000_000,
            tol_den <= 1_000_000_000,
        ensures
            r == exists|i: int|
                0 <= i < orders@.len() && spec_similar(
                    (#[trigger] orders@[i]).1.price as int,
                    price as int,
                    tol_num as int,
                    tol_den as int,
                ),
    {
        let n = orders.len();
        let mut i: usize = 0;
        while i < n
            invariant
                orders_ok(orders@),
                n == orders@.len(),
                price <= 0x8000_0000_0000_0000,
                tol_num <= 1_000_000_000,
                tol_den <= 1_000_000_000,
                0 <= i <= n,
                forall|j: int|
                    0 <= j < i ==> !spec_similar(
                        (#[trigger] orders@[j]).1.price as int,
                        price as int,
                        tol_num as int,
                        tol_den as int,
                    ),
            decreases n - i,
        {
            let po = orders[i].1.price;
            let diff: u64 = if po >= price {
                po - price
            } else {
                price - po
            };
            proof {
                assert(diff as int * tol_den as int <= 0x8000_0000_0000_0000
                    * 1_000_000_000 && diff as int * tol_den as int >= 0 && tol_num as int
                    * price as int <= 1_000_000_000 * 0x8000_0000_0000_0000 && tol_num as int
                    * price as int >= 0) by (nonlinear_arith)
                    requires
                        0 <= diff as int <= 0x8000_0000_0000_0000,
                        0 <= tol_den as int <= 1_000_000_000,
                        0 <= tol_num as int <= 1_000_000_000,
                        0 <= price as int <= 0x8000_0000_0000_0000,
                ;
            }
            if (diff as u128) * (tol_den as u128) < (tol_num as u128) * (price as u128) {
                return true;
            }
            i += 1;
        }
        false
    }

    /// Appends a mid-price sample and refreshes the portfolio mark, at
    /// most once per sampling interval; zero prices are never recorded.
    pub fn record_price(
        &mut self,
        portfolio: &mut crate::portfolio::Portfolio,
        price: u64,
        now: u64,
    )
        requires
            old(self).wf(),
            old(portfolio).wf(),
            0 < price <= PRICE_LIMIT as u64,
            now <= TIME_LIMIT,
        ensures
            final(self).wf(),
            final(portfolio).wf(),
            now as int >= old(self).prices_last_updated as int
                + old(self).config.price_record_interval_s ==> {
                &&& final(self).prices@ == (if old(self).prices@.len() < BUFFER_SIZE {
                    old(self).prices@.push(price)
                } else {
                    old(self).prices@.drop_first().push(price)
                })
                &&& final(self).prices_last_updated == now
                &&& (*final(self) == (Market {
                    prices: final(self).prices,
                    prices_last_updated: now,
                    ..*old(self)
                }))
                &&& (spec_has_usd_suffix(old(self).pair@) && old(portfolio).contents(
                ).contains_key(spec_pair_asset(old(self).pair@)) ==> final(portfolio).contents()
                    == old(portfolio).contents().insert(
                    spec_pair_asset(old(self).pair@),
                    (crate::portfolio::Position {
                        amount: old(portfolio).contents()[spec_pair_asset(old(self).pair@)].amount,
                        price: price as i64,
                    }),
                ))
                &&& (!(spec_has_usd_suffix(old(self).pair@) && old(portfolio).contents(
                ).contains_key(spec_pair_asset(old(self).pair@))) ==> final(portfolio).contents()
                    == old(portfolio).contents())
            },
            (now as int) < old(self).prices_last_updated as int
                + old(self).config.price_record_interval_s ==> *final(self) == *old(self)
                && final(portfolio).contents() == old(portfolio).contents()
                && *final(portfolio) == *old(portfolio),
    {
        if now < self.prices_last_updated + self.config.price_record_interval_s {
            return ;
        }
        portfolio.set_pair_price(self.pair.clone(), price as i64);
        self.prices.push(price);
        if self.prices.len() > BUFFER_SIZE {
            let ghost before = self.prices@;
            self.prices.remove(0);
            proof {
                assert(self.prices@ =~= before.drop_first());
                assert(before.drop_first() =~= old(self).prices@.drop_first().push(price));
            }
        }
        self.prices_last_updated = now;
    }

    /// Appends a relative-spread sample, at most once per sampling
    /// interval.
    pub fn record_spread(&mut self, bid_price: u64, ask_price: u64, now: u64)
        requires
            old(self).wf(),
            bid_price <= PRICE_LIMIT as u64,
            ask_price <= PRICE_LIMIT as u64,
            now <= TIME_LIMIT,
        ensures
            final(self).wf(),
            final(self).pair == old(self).pair,
            final(self).mid_price == old(self).mid_price,
            final(self).last_price == old(self).last_price,
            final(self).prices == old(self).prices,
            final(self).bid_orders == old(self).bid_orders,
            final(self).ask_orders == old(self).ask_orders,
            final(self).last_order_time == old(self).last_order_time,
            final(self).decimals == old(self).decimals,
            final(self).config == old(self).config,
            final(self).prices_last_updated == old(self).prices_last_updated,
            final(self).vol_24hr == old(self).vol_24hr,
            now as int >= old(self).spreads_last_updated as int
                + old(self).config.price_record_interval_s && bid_price + ask_price > 0 ==> {
                &&& final(self).spreads@ == (if old(self).spreads@.len() < BUFFER_SIZE {
                    old(self).spreads@.push(final(self).spreads@.last())
                } else {
                    old(self).spreads@.drop_first().push(final(self).spreads@.last())
                })
                &&& final(self).spreads@.last() as int == spec_rel_spread(
                    bid_price as int,
                    ask_price as int,
                )
                &&& final(self).spreads_last_updated == now
            },
            !(now as int >= old(self).spreads_last_updated as int
                + old(self).config.price_record_interval_s && bid_price + ask_price > 0)
                ==> *final(self) == *old(self),
    {
        if now < self.spreads_last_updated + self.config.price_record_interval_s {
            return ;
        }
        if bid_price == 0 && ask_price == 0 {
            return ;
        }
        let gap: u64 = if ask_price >= bid_price {
            ask_price - bid_price
        } else {
            bid_price - ask_price
        };
        let den: u128 = ask_price as u128 + bid_price as u128;
        proof {
            assert(0 <= 2 * (SCALE as int) * (gap as int) <= 0x2_0000_0000_0000 * 200_000_000)
                by (nonlinear_arith)
                requires
                    0 <= gap as int <= 0x2_0000_0000_0000,
                    SCALE as int == 100_000_000,
            ;
            lemma_rel_spread_bounds(bid_price as int, ask_price as int);
        }
        let mag: u128 = 2 * (SCALE as u128) * (gap as u128) / den;
        let spread: i64 = if ask_price >= bid_price {
            mag as i64
        } else {
            -(mag as i64)
        };
        self.spreads.push(spread);
        if self.spreads.len() > BUFFER_SIZE {
            let ghost before = self.spreads@;
            self.spreads.remove(0);
            proof {
                assert(self.spreads@ =~= before.drop_first());
                assert(before.drop_first() =~= old(self).spreads@.drop_first().push(
                    spread,
                ));
            }
        }
        self.spreads_last_updated = now;
    }

    /// One command cancelling every resting order of the instrument, or
    /// nothing when none rests.
    pub fn cancel_orders(&self) -> (r: Option<OrderCommand>)
        requires
            self.wf(),
        ensures
            self.bid_orders@.len() + self.ask_orders@.len() == 0 <==> r.is_none(),
            r.is_some() ==> (match r.unwrap() {
                OrderCommand::Cancel { ids } => ids@.map_values(|s: String| s@)
                    =~= order_keys(self.bid_orders@) + order_keys(self.ask_orders@),
                _ => false,
            }),
    {
        let mut ids: Vec<String> = Vec::new();
        let nb = self.bid_orders.len();
        let mut i: usize = 0;
        while i < nb
            invariant
                self.wf(),
                nb == self.bid_orders@.len(),
                0 <= i <= nb,
                ids@.map_values(|s: String| s@) =~= order_keys(
                    self.bid_orders@.take(i as int),
                ),
            decreases nb - i,
        {
            ids.push(self.bid_orders[i].0.clone());
            proof {
                assert(self.bid_orders@.take(i + 1).drop_last() =~= self.bid_orders@.take(
                    i as int,
                ));
                assert(ids@.map_values(|s: String| s@) =~= order_keys(
                    self.bid_orders@.take(i as int),
                ).push(self.bid_orders@[i as int].0@));
                lemma_order_keys_push(self.bid_orders@, i as int);
            }
            i += 1;
        }
        proof {
            assert(self.bid_orders@.take(nb as int) =~= self.bid_orders@);
        }
        let na = self.ask_orders.len();
        let mut j: usize = 0;
        while j < na
            invariant
                self.wf(),
                na == self.ask_orders@.len(),
                nb == self.bid_orders@.len(),
                0 <= j <= na,
                ids@.map_values(|s: String| s@) =~= order_keys(self.bid_orders@)
                    + order_keys(self.ask_orders@.take(j as int)),
            decreases na - j,
        {
            ids.push(self.ask_orders[j].0.clone());
            proof {
                assert(ids@.map_values(|s: String| s@) =~= (order_keys(self.bid_orders@)
                    + order_keys(self.ask_orders@.take(j as int))).push(
                    self.ask_orders@[j as int].0@,
                ));
                lemma_order_keys_push(self.ask_orders@, j as int);
            }
            j += 1;
        }
        proof {
            assert(self.ask_orders@.take(na as int) =~= self.ask_orders@);
        }
        if ids.len() == 0 {
            proof {
                assert(order_keys(self.bid_orders@).len() == self.bid_orders@.len());
                assert(order_keys(self.ask_orders@).len() == self.ask_orders@.len());
            }
            None
        } else {
            Some(OrderCommand::Cancel { ids })
        }
    }
}

/// The order ids of a resting-order list, in order.
pub open spec fn order_keys(s: Seq<(String, RestingOrder)>) -> Seq<Seq<char>> {
    s.map_values(|e: (String, RestingOrder)| e.0@)
}

/// The inputs the requote decision reads: pair, config, price history,
/// mid price, inferred decimals, bid orders, ask orders and the cooldown
/// mark.
pub type RefreshView = (
    Seq<char>,
    MarketConfig,
    Seq<u64>,
    int,
    int,
    Seq<(String, RestingOrder)>,
    Seq<(String, RestingOrder)>,
    int,
);

pub open spec fn refresh_view(m: Market) -> RefreshView {
    (
        m.pair@,
        m.config,
        m.prices@,
        m.mid_price as int,
        m.decimals as int,
        m.bid_orders@,
        m.ask_orders@,
        m.last_order_time as int,
    )
}

/// Which sides one requote decision refreshes: neither while there is no
/// mid price, no pressure or the cooldown has not elapsed; otherwise each
/// side whose freshly computed positive price has no similar resting
/// order.
pub open spec fn spec_refresh_sides(v: RefreshView, delta: int, now: int) -> (bool, bool) {
    if v.3 == 0 || delta == 0 || now < v.7 + v.1.order_cooldown_s {
        (false, false)
    } else {
        let vol = spec_volatility(v.2, v.3, v.1);
        let skew = spec_skew(v.1, vol);
        let reserve = spec_reserve_price(v.3, delta, skew);
        let spread = spec_optimal_spread(v.1, skew);
        let bid = spec_bid_price(reserve, spread);
        let ask = spec_ask_price(reserve, spread);
        (
            !spec_similar_exists(v.5, bid, v.1) && bid >= 1,
            !spec_similar_exists(v.6, ask, v.1) && ask >= 1,
        )
    }
}

/// Whether one requote decision sends anything at all.
pub open spec fn spec_refresh_emits(v: RefreshView, delta: int, now: int) -> bool {
    spec_refresh_sides(v, delta, now).0 || spec_refresh_sides(v, delta, now).1
}

/// The commands one requote decision sends: nothing when no side is
/// refreshed; otherwise first one cancellation of the refreshed sides'
/// resting orders (when any rest), then one add-order per refreshed side,
/// bid before ask, with rounded decimal price and volume strings.
pub open spec fn spec_refresh_commands(
    v: RefreshView,
    delta: int,
    now: int,
    cmds: Seq<OrderCommand>,
) -> bool {
    let emit = spec_refresh_sides(v, delta, now);
    let emit_b = emit.0;
    let emit_a = emit.1;
    let vol = spec_volatility(v.2, v.3, v.1);
    let skew = spec_skew(v.1, vol);
    let reserve = spec_reserve_price(v.3, delta, skew);
    let spread = spec_optimal_spread(v.1, skew);
    let bid = spec_bid_price(reserve, spread);
    let ask = spec_ask_price(reserve, spread);
    let cancel_ids = (if emit_b {
        order_keys(v.5)
    } else {
        Seq::empty()
    }) + (if emit_a {
        order_keys(v.6)
    } else {
        Seq::empty()
    });
    let n_cancel: int = if cancel_ids.len() > 0 {
        1
    } else {
        0
    };
    if !emit_b && !emit_a {
        cmds.len() == 0
    } else {
        &&& cmds.len() == n_cancel + (if emit_b {
            1int
        } else {
            0int
        }) + (if emit_a {
            1int
        } else {
            0int
        })
        &&& (cancel_ids.len() > 0 ==> (cmds[0] matches OrderCommand::Cancel { ids }
            && ids@.map_values(|s: String| s@) == cancel_ids))
        &&& (emit_b ==> (cmds[n_cancel] matches OrderCommand::Add { pair, side, price, volume }
            && pair@ == v.0 && side == crate::schema::OrderSide::BUY && price@
            == crate::decimal::spec_format_fixed(bid, spec_eff_decimals(v.4 as u8) as int)
            && volume@ == crate::decimal::spec_format_fixed(
            spec_order_size(v.1.order_size_quote as int, bid),
            8,
        )))
        &&& (emit_a ==> (cmds[n_cancel + (if emit_b {
            1int
        } else {
            0int
        })] matches OrderCommand::Add { pair, side, price, volume } && pair@ == v.0 && side
            == crate::schema::OrderSide::SELL && price@ == crate::decimal::spec_format_fixed(
            ask,
            spec_eff_decimals(v.4 as u8) as int,
        ) && volume@ == crate::decimal::spec_format_fixed(
            spec_order_size(v.1.order_size_quote as int, ask),
            8,
        )))
    }
}


/// Whether a best-quote message carries a parsable, in-bounds bid and
/// ask.
pub open spec fn spec_tick_ok(data: crate::messages::TickerData) -> bool {
    &&& data.b@.len() >= 1
    &&& data.a@.len() >= 1
    &&& valid_decimal(data.b@[0]@)
    &&& spec_parse_fixed(data.b@[0]@) <= PRICE_LIMIT as int
    &&& valid_decimal(data.a@[0]@)
    &&& spec_parse_fixed(data.a@[0]@) <= PRICE_LIMIT as int
}

/// The quote-side state a best-quote message acts on: mid price, last
/// price, inferred decimals, 24-hour volume, the spread samples and their
/// timestamp.
pub type QuoteView = (int, int, int, int, Seq<i64>, int);

pub open spec fn quote_view(m: Market) -> QuoteView {
    (
        m.mid_price as int,
        m.last_price as int,
        m.decimals as int,
        m.vol_24hr as int,
        m.spreads@,
        m.spreads_last_updated as int,
    )
}

/// What one best-quote message does to the quote state: a message whose
/// bid or ask does not parse within bounds changes nothing; otherwise the
/// spread is sampled once per interval, the first quote initializes the
/// mid and last price and the precision, the precision never decreases,
/// and the 24-hour volume follows the message when it parses.
pub open spec fn spec_ticker_step(
    q: QuoteView,
    c: MarketConfig,
    t: crate::messages::TickerData,
    now: int,
) -> QuoteView {
    if !spec_tick_ok(t) {
        q
    } else {
        let bid = spec_parse_fixed(t.b@[0]@);
        let ask = spec_parse_fixed(t.a@[0]@);
        let cd = crate::decimal::spec_count_decimals(t.b@[0]@) % 256;
        let sampled = now >= q.5 + c.price_record_interval_s && bid + ask > 0;
        let sp = spec_rel_spread(bid, ask) as i64;
        let spreads1 = if !sampled {
            q.4
        } else if q.4.len() < BUFFER_SIZE {
            q.4.push(sp)
        } else {
            q.4.drop_first().push(sp)
        };
        let mid1 = if q.0 == 0 {
            (bid + ask) / 2
        } else {
            q.0
        };
        let last1 = if q.0 == 0 {
            (bid + ask) / 2
        } else {
            q.1
        };
        let dec1 = if q.0 == 0 {
            cd
        } else if cd > q.2 {
            cd
        } else {
            q.2
        };
        let vol1 = if t.v@.len() >= 1 && valid_decimal(t.v@[0]@) && spec_parse_fixed(t.v@[0]@)
            <= u64::MAX {
            spec_parse_fixed(t.v@[0]@)
        } else {
            q.3
        };
        (
            mid1,
            last1,
            dec1,
            vol1,
            spreads1,
            if sampled {
                now
            } else {
                q.5
            },
        )
    }
}

/// Whether some resting order of the list sits within the configured
/// similarity tolerance of the candidate price.
pub open spec fn spec_similar_exists(
    s: Seq<(String, RestingOrder)>,
    price: int,
    c: MarketConfig,
) -> bool {
    exists|i: int|
        0 <= i < s.len() && spec_similar(
            (#[trigger] s[i]).1.price as int,
            price,
            c.similar_tol_num as int,
            c.similar_tol_den as int,
        )
}

/// Appends every order id of the list to `ids`.
fn push_order_keys(ids: &mut Vec<String>, orders: &Vec<(String, RestingOrder)>)
    ensures
        final(ids)@.map_values(|s: String| s@) == old(ids)@.map_values(|s: String| s@)
            + order_keys(orders@),
{
    let ghost base = ids@;
    let n = orders.len();
    let mut i: usize = 0;
    proof {
        assert(ids@.map_values(|s: String| s@) =~= base.map_values(|s: String| s@)
            + order_keys(orders@.take(0)));
    }
    while i < n
        invariant
            n == orders@.len(),
            0 <= i <= n,
            base == old(ids)@,
            ids@.map_values(|s: String| s@) =~= base.map_values(|s: String| s@)
                + order_keys(orders@.take(i as int)),
        decreases n - i,
    {
        let ghost prev = ids@;
        ids.push(orders[i].0.clone());
        proof {
            lemma_order_keys_push(orders@, i as int);
            assert(ids@ =~= prev.push(ids@.last()));
            assert(ids@.last()@ == orders@[i as int].0@);
            assert(ids@.map_values(|s: String| s@) =~= prev.map_values(
                |s: String| s@,
            ).push(ids@.last()@));
            assert(ids@.map_values(|s: String| s@) =~= base.map_values(|s: String| s@)
                + order_keys(orders@.take(i + 1)));
        }
        i += 1;
    }
    proof {
        assert(orders@.take(n as int) =~= orders@);
    }
}

proof fn lemma_order_keys_push(s: Seq<(String, RestingOrder)>, i: int)
    requires
        0 <= i < s.len(),
    ensures
        order_keys(s.take(i + 1)) =~= order_keys(s.take(i)).push(s[i].0@),
{
    assert(order_keys(s.take(i + 1)).len() == i + 1);
}

/// Relative spread of a quote: twice the gap over the sum, fixed-point,
/// truncated toward zero; negative when the book is crossed.
pub open spec fn spec_rel_spread(bid: int, ask: int) -> int {
    if ask >= bid {
        2 * SCALE as int * (ask - bid) / (ask + bid)
    } else {
        -(2 * SCALE as int * (bid - ask) / (ask + bid))
    }
}

proof fn lemma_rel_spread_bounds(bid: int, ask: int)
    requires
        0 <= bid <= PRICE_LIMIT as int,
        0 <= ask <= PRICE_LIMIT as int,
        bid + ask > 0,
    ensures
        -(2 * SCALE as int) <= spec_rel_spread(bid, ask) <= 2 * SCALE as int,
{
    let g = if ask >= bid {
        ask - bid
    } else {
        bid - ask
    };
    let n = 2 * SCALE as int * g;
    let d = ask + bid;
    assert(0 <= n <= 2 * SCALE as int * d) by (nonlinear_arith)
        requires
            0 <= g <= d,
            d > 0,
            n == 2 * 100_000_000 * g,
            SCALE as int == 100_000_000,
    ;
    assert(0 <= n / d <= 2 * SCALE as int) by (nonlinear_arith)
        requires
            0 <= n <= 2 * SCALE as int * d,
            d > 0,
    ;
}

/// The map a resting-order list denotes.
pub open spec fn orders_map(s: Seq<(String, RestingOrder)>) -> Map<Seq<char>, RestingOrder>
    decreases s.len(),
{
    if s.len() == 0 {
        Map::empty()
    } else {
        orders_map(s.drop_last()).insert(s.last().0@, s.last().1)
    }
}

pub proof fn lemma_orders_at(s: Seq<(String, RestingOrder)>, i: int)
    requires
        orders_ok(s),
        0 <= i < s.len(),
    ensures
        orders_map(s).contains_key(s[i].0@),
        orders_map(s)[s[i].0@] == s[i].1,
    decreases s.len(),
{
    if i < s.len() - 1 {
        assert(orders_ok(s.drop_last())) by {
            assert(forall|x: int| 0 <= x < s.len() - 1 ==> s.drop_last()[x] == s[x]);
        }
        lemma_orders_at(s.drop_last(), i);
        assert(s[i].0@ != s.last().0@);
    }
}

pub proof fn lemma_orders_absent(s: Seq<(String, RestingOrder)>, id: Seq<char>)
    requires
        forall|i: int| 0 <= i < s.len() ==> (#[trigger] s[i]).0@ != id,
    ensures
        !orders_map(s).contains_key(id),
    decreases s.len(),
{
    if s.len() > 0 {
        assert(forall|i: int| 0 <= i < s.len() - 1 ==> s.drop_last()[i] == s[i]);
        lemma_orders_absent(s.drop_last(), id);
    }
}

/// Removing the entry at `i` removes its key from the map, and no other.
pub proof fn lemma_orders_remove(s: Seq<(String, RestingOrder)>, i: int)
    requires
        orders_ok(s),
        0 <= i < s.len(),
    ensures
        orders_map(s.remove(i)) == orders_map(s).remove(s[i].0@),
        orders_ok(s.remove(i)),
    decreases s.len(),
{
    let t = s.remove(i);
    assert(orders_ok(t)) by {
        assert(forall|x: int|
            0 <= x < t.len() ==> #[trigger] t[x] == (if x < i {
                s[x]
            } else {
                s[x + 1]
            }));
    }
    if i == s.len() - 1 {
        assert(t =~= s.drop_last());
        assert forall|x: int| 0 <= x < t.len() implies (#[trigger] t[x]).0@ != s[i].0@ by {
            assert(t[x] == s[x]);
        }
        lemma_orders_absent(t, s[i].0@);
        assert(orders_map(t) =~= orders_map(s).remove(s[i].0@));
    } else {
        assert(t.drop_last() =~= s.drop_last().remove(i));
        assert(orders_ok(s.drop_last())) by {
            assert(forall|x: int| 0 <= x < s.len() - 1 ==> s.drop_last()[x] == s[x]);
        }
        assert(s.drop_last()[i] == s[i]);
        lemma_orders_remove(s.drop_last(), i);
        assert(t.last() == s.last());
        assert(s.last().0@ != s[i].0@);
        assert(orders_map(t) =~= orders_map(s).remove(s[i].0@));
    }
}

/// Every key of the map names some entry.
pub proof fn lemma_orders_map_dom(s: Seq<(String, RestingOrder)>, k: Seq<char>)
    requires
        orders_map(s).contains_key(k),
    ensures
        exists|j: int| 0 <= j < s.len() && (#[trigger] s[j]).0@ == k,
    decreases s.len(),
{
    if s.len() > 0 {
        if s.last().0@ == k {
            assert(s[s.len() - 1].0@ == k);
        } else {
            lemma_orders_map_dom(s.drop_last(), k);
            let j = choose|j: int| 0 <= j < s.len() - 1 && (#[trigger] s.drop_last()[j]).0@ == k;
            assert(s[j].0@ == k);
        }
    }
}

/// An outbound instruction for the private stream.
pub enum OrderCommand {
    /// Place one limit order; price and volume are already rounded decimal
    /// strings.
    Add { pair: String, side: crate::schema::OrderSide, price: String, volume: String },
    /// Cancel these resting orders.
    Cancel { ids: Vec<String> },
}

/// Whether a pending/open event can create a resting order: a descriptor
/// for this instrument with a known side and parsable, in-bounds price and
/// volume.
pub open spec fn spec_insertable(pair: Seq<char>, data: OrderData) -> bool {
    &&& data.descr is Some
    &&& data.descr.unwrap().pair@ == pair
    &&& (data.descr.unwrap()._type@ == "buy"@ || data.descr.unwrap()._type@ == "sell"@)
    &&& data.vol is Some
    &&& valid_decimal(data.descr.unwrap().price@)
    &&& 0 < spec_parse_fixed(data.descr.unwrap().price@) <= PRICE_LIMIT as int
    &&& valid_decimal(data.vol.unwrap()@)
    &&& 0 < spec_parse_fixed(data.vol.unwrap()@) <= AMOUNT_LIMIT as int
}

/// The resting order a pending/open event denotes.
pub open spec fn spec_event_order(data: OrderData) -> RestingOrder {
    RestingOrder {
        price: spec_parse_fixed(data.descr.unwrap().price@) as u64,
        volume: spec_parse_fixed(data.vol.unwrap()@) as u64,
    }
}

/// The ledger after a reported fill: applied when both legs fit, left
/// alone otherwise.
pub open spec fn spec_fill_contents(pc: Map<Seq<char>, Position>, pair: Seq<char>, v: int, prc: int) -> Map<
    Seq<char>,
    Position,
> {
    if spec_fill_applies(pc, pair, v, prc) {
        spec_apply_fill(pc, pair, v, prc)
    } else {
        pc
    }
}

/// The reconciliation state one order event acts on: the bid map, the ask
/// map, the ledger and the last price.
pub type ReconcileState = (
    Map<Seq<char>, RestingOrder>,
    Map<Seq<char>, RestingOrder>,
    Map<Seq<char>, Position>,
    int,
);

/// What one order-status event does to the reconciliation state: the new
/// bid map, ask map, ledger and last price.
///
/// A pending/open event inserts an admissible order on its side, unless
/// the id is already tracked on either side;
/// a closed event removes the order from whichever map holds it, applies
/// its stored volume and price to the ledger with sign by side, and blends
/// its price into the last price; a canceled event only removes; anything
/// else, and any terminal event for an unknown id, changes nothing.
pub open spec fn spec_order_event(
    s: ReconcileState,
    pair: Seq<char>,
    c: MarketConfig,
    id: Seq<char>,
    data: OrderData,
) -> ReconcileState {
    let bm = s.0;
    let am = s.1;
    let pc = s.2;
    let lp = s.3;
    let st = data.status@;
    if st == "pending"@ || st == "open"@ {
        if spec_insertable(pair, data) {
            let o = spec_event_order(data);
            if bm.contains_key(id) || am.contains_key(id) {
                s
            } else if data.descr.unwrap()._type@ == "buy"@ {
                (bm.insert(id, o), am, pc, lp)
            } else {
                (bm, am.insert(id, o), pc, lp)
            }
        } else {
            s
        }
    } else if st == "closed"@ {
        if bm.contains_key(id) {
            let o = bm[id];
            (
                bm.remove(id),
                am,
                spec_fill_contents(pc, pair, o.volume as int, o.price as int),
                spec_blend(c, lp, o.price as int),
            )
        } else if am.contains_key(id) {
            let o = am[id];
            (
                bm,
                am.remove(id),
                spec_fill_contents(pc, pair, -(o.volume as int), o.price as int),
                spec_blend(c, lp, o.price as int),
            )
        } else {
            s
        }
    } else if st == "canceled"@ {
        if bm.contains_key(id) {
            (bm.remove(id), am, pc, lp)
        } else if am.contains_key(id) {
            (bm, am.remove(id), pc, lp)
        } else {
            s
        }
    } else {
        s
    }
}

/// One batched frame's entries, in delivery order.
pub open spec fn spec_flatten_batches(bs: Seq<Vec<(String, OrderData)>>) -> Seq<(String, OrderData)>
    decreases bs.len(),
{
    if bs.len() == 0 {
        Seq::empty()
    } else {
        spec_flatten_batches(bs.drop_last()) + bs.last()@
    }
}

/// The reconciliation state after a run of order events, applied first to
/// last.
pub open spec fn spec_order_events_fold(
    s: ReconcileState,
    pair: Seq<char>,
    c: MarketConfig,
    es: Seq<(String, OrderData)>,
) -> ReconcileState
    decreases es.len(),
{
    if es.len() == 0 {
        s
    } else {
        spec_order_event(
            spec_order_events_fold(s, pair, c, es.drop_last()),
            pair,
            c,
            es.last().0@,
            es.last().1,
        )
    }
}

/// Folding over two runs in sequence is folding over their concatenation.
pub proof fn lemma_fold_concat(
    s: ReconcileState,
    pair: Seq<char>,
    c: MarketConfig,
    a: Seq<(String, OrderData)>,
    b: Seq<(String, OrderData)>,
)
    ensures
        spec_order_events_fold(s, pair, c, a + b) == spec_order_events_fold(
            spec_order_events_fold(s, pair, c, a),
            pair,
            c,
            b,
        ),
    decreases b.len(),
{
    if b.len() == 0 {
        assert(a + b =~= a);
    } else {
        assert((a + b).drop_last() =~= a + b.drop_last());
        assert((a + b).last() == b.last());
        lemma_fold_concat(s, pair, c, a, b.drop_last());
    }
}

/// Two requote triggers within one cooldown window place at most one
/// batch: a batch at `now1` moves the cooldown mark to `now1`, and any
/// trigger before `now1` plus the cooldown falls into the branch of
/// `refresh_orders` that is bound to return no commands and leave the
/// mark alone.
pub proof fn lemma_cooldown_suppresses(m: Market, now1: u64, now2: u64)
    requires
        m.last_order_time == now1,
        (now2 as int) < now1 + m.config.order_cooldown_s,
    ensures
        (now2 as int) < m.last_order_time + m.config.order_cooldown_s,
{
}

/// Applying `canceled`, or a duplicate `closed`, for an order id absent
/// from both open-order maps is a no-op: no map changes, no ledger
/// mutation, no price update.
pub proof fn lemma_reconcile_absent_noop(
    s: ReconcileState,
    pair: Seq<char>,
    c: MarketConfig,
    id: Seq<char>,
    data: OrderData,
)
    requires
        data.status@ == "closed"@ || data.status@ == "canceled"@,
        !s.0.contains_key(id),
        !s.1.contains_key(id),
    ensures
        spec_order_event(s, pair, c, id, data) == s,
{
    reveal_order_words();
}

/// The status and side words are pairwise distinct.
proof fn reveal_order_words()
    ensures
        "pending"@ != "open"@,
        "pending"@ != "closed"@,
        "pending"@ != "canceled"@,
        "open"@ != "closed"@,
        "open"@ != "canceled"@,
        "closed"@ != "canceled"@,
        "buy"@ != "sell"@,
{
    reveal_strlit("pending");
    reveal_strlit("open");
    reveal_strlit("closed");
    reveal_strlit("canceled");
    reveal_strlit("buy");
    reveal_strlit("sell");
    assert("pending"@.len() == 7);
    assert("open"@.len() == 4);
    assert("closed"@.len() == 6);
    assert("canceled"@.len() == 8);
    assert("buy"@.len() == 3);
    assert("sell"@.len() == 4);
}

/// A key the map lacks names no entry.
proof fn lemma_orders_absent_entries(s: Seq<(String, RestingOrder)>, id: Seq<char>)
    requires
        orders_ok(s),
        !orders_map(s).contains_key(id),
    ensures
        forall|j: int| 0 <= j < s.len() ==> (#[trigger] s[j]).0@ != id,
{
    assert forall|j: int| 0 <= j < s.len() implies (#[trigger] s[j]).0@ != id by {
        lemma_orders_at(s, j);
    }
}

/// Finds a resting order by id.
fn find_order(orders: &Vec<(String, RestingOrder)>, id: &String) -> (r: Option<usize>)
    requires
        orders_ok(orders@),
    ensures
        match r {
            Some(i) => i < orders@.len() && orders@[i as int].0@ == id@ && orders_map(
                orders@,
            ).contains_key(id@) && orders_map(orders@)[id@] == orders@[i as int].1,
            None => !orders_map(orders@).contains_key(id@),
        },
{
    let n = orders.len();
    let mut i: usize = 0;
    while i < n
        invariant
            orders_ok(orders@),
            n == orders@.len(),
            0 <= i <= n,
            forall|j: int| 0 <= j < i ==> (#[trigger] orders@[j]).0@ != id@,
        decreases n - i,
    {
        if orders[i].0 == *id {
            proof {
                lemma_orders_at(orders@, i as int);
            }
            return Some(i);
        }
        i += 1;
    }
    proof {
        lemma_orders_absent(orders@, id@);
    }
    None
}

impl Market {
    /// Applies one order-status event (see `spec_order_event`); terminal
    /// events for untracked ids are benign no-ops.
    pub fn apply_order_event(&mut self, portfolio: &mut Portfolio, order_id: &String, data:
        &OrderData)
        requires
            old(self).wf(),
            old(portfolio).wf(),
        ensures
            final(self).wf(),
            final(portfolio).wf(),
            final(self).pair == old(self).pair,
            final(self).decimals == old(self).decimals,
            final(self).mid_price == old(self).mid_price,
            final(self).prices == old(self).prices,
            final(self).prices_last_updated == old(self).prices_last_updated,
            final(self).spreads == old(self).spreads,
            final(self).spreads_last_updated == old(self).spreads_last_updated,
            final(self).vol_24hr == old(self).vol_24hr,
            final(self).last_order_time == old(self).last_order_time,
            final(self).config == old(self).config,
            ({
                let t = spec_order_event(
                    (
                        orders_map(old(self).bid_orders@),
                        orders_map(old(self).ask_orders@),
                        old(portfolio).contents(),
                        old(self).last_price as int,
                    ),
                    old(self).pair@,
                    old(self).config,
                    order_id@,
                    *data,
                );
                &&& orders_map(final(self).bid_orders@) == t.0
                &&& orders_map(final(self).ask_orders@) == t.1
                &&& final(portfolio).contents() == t.2
                &&& final(self).last_price as int == t.3
            }),
            (data.status@ == "closed"@ || data.status@ == "canceled"@) && !orders_map(
                old(self).bid_orders@,
            ).contains_key(order_id@) && !orders_map(old(self).ask_orders@).contains_key(
                order_id@,
            ) ==> *final(self) == *old(self) && *final(portfolio) == *old(portfolio),
    {
        proof {
            reveal_order_words();
        }
        let st_pending = "pending".to_owned();
        let st_open = "open".to_owned();
        let st_closed = "closed".to_owned();
        let st_canceled = "canceled".to_owned();
        let side_buy = "buy".to_owned();
        let side_sell = "sell".to_owned();

        if data.status == st_pending || data.status == st_open {
            let descr = match data.descr.as_ref() {
                Some(d) => d,
                None => {
                    return ;
                },
            };
            let is_buy = descr._type == side_buy;
            let is_sell = descr._type == side_sell;
            if !is_buy && !is_sell {
                return ;
            }
            if !(descr.pair == self.pair) {
                return ;
            }
            let price = match crate::decimal::parse_fixed(descr.price.as_str()) {
                Some(v) => v,
                None => {
                    return ;
                },
            };
            if price == 0 || price > PRICE_LIMIT as u64 {
                return ;
            }
            let vol_str = match data.vol.as_ref() {
                Some(v) => v,
                None => {
                    return ;
                },
            };
            let volume = match crate::decimal::parse_fixed(vol_str.as_str()) {
                Some(v) => v,
                None => {
                    return ;
                },
            };
            if volume == 0 || volume > AMOUNT_LIMIT as u64 {
                return ;
            }
            let o = RestingOrder { price, volume };
            if find_order(&self.bid_orders, order_id).is_none() && find_order(
                &self.ask_orders,
                order_id,
            ).is_none() {
                proof {
                    lemma_orders_absent_entries(self.bid_orders@, order_id@);
                    lemma_orders_absent_entries(self.ask_orders@, order_id@);
                }
                if is_buy {
                    let ghost olds = self.bid_orders@;
                    self.bid_orders.push((order_id.clone(), o));
                    proof {
                        assert(self.bid_orders@.drop_last() =~= olds);
                        assert(orders_ok(self.bid_orders@)) by {
                            assert(forall|x: int|
                                0 <= x < olds.len() ==> self.bid_orders@[x] == olds[x]);
                        }
                        assert(disjoint_keys(self.bid_orders@, self.ask_orders@)) by {
                            assert(forall|x: int|
                                0 <= x < olds.len() ==> self.bid_orders@[x] == olds[x]);
                        }
                    }
                } else {
                    let ghost olds = self.ask_orders@;
                    self.ask_orders.push((order_id.clone(), o));
                    proof {
                        assert(self.ask_orders@.drop_last() =~= olds);
                        assert(orders_ok(self.ask_orders@)) by {
                            assert(forall|x: int|
                                0 <= x < olds.len() ==> self.ask_orders@[x] == olds[x]);
                        }
                        assert(disjoint_keys(self.bid_orders@, self.ask_orders@)) by {
                            assert(forall|x: int|
                                0 <= x < olds.len() ==> self.ask_orders@[x] == olds[x]);
                        }
                    }
                }
            }
        } else if data.status == st_closed {
            match find_order(&self.bid_orders, order_id) {
                Some(i) => {
                    let o = self.bid_orders[i].1;
                    proof {
                        lemma_orders_remove(self.bid_orders@, i as int);
                    }
                    self.bid_orders.remove(i);
                    self.set_last_price(o.price);
                    portfolio.update_pair(self.pair.clone(), o.volume as i64, o.price as i64);
                },
                None => {
                    match find_order(&self.ask_orders, order_id) {
                        Some(i) => {
                            let o = self.ask_orders[i].1;
                            proof {
                                lemma_orders_remove(self.ask_orders@, i as int);
                            }
                            self.ask_orders.remove(i);
                            self.set_last_price(o.price);
                            portfolio.update_pair(
                                self.pair.clone(),
                                -(o.volume as i64),
                                o.price as i64,
                            );
                        },
                        None => {},
                    }
                },
            }
        } else if data.status == st_canceled {
            match find_order(&self.bid_orders, order_id) {
                Some(i) => {
                    proof {
                        lemma_orders_remove(self.bid_orders@, i as int);
                    }
                    self.bid_orders.remove(i);
                },
                None => {
                    match find_order(&self.ask_orders, order_id) {
                        Some(i) => {
                            proof {
                                lemma_orders_remove(self.ask_orders@, i as int);
                            }
                            self.ask_orders.remove(i);
                        },
                        None => {},
                    }
                },
            }
        }
    }

    /// Formats a price rounded to the instrument's inferred precision.
    pub fn round_price(&self, price: u64) -> (r: String)
        ensures
            r@ == crate::decimal::spec_format_fixed(
                price as int,
                spec_eff_decimals(self.decimals) as int,
            ),
    {
        let d: u8 = if self.decimals > crate::decimal::FRAC_DIGITS {
            crate::decimal::FRAC_DIGITS
        } else {
            self.decimals
        };
        crate::decimal::format_fixed(price, d)
    }

    /// Recomputes quotes and decides whether to replace the resting
    /// orders.
    ///
    /// Nothing goes out while the engine has no mid price, while the
    /// portfolio reports no pressure, or within the cooldown window of the
    /// last batch.  A side whose resting order already sits within the
    /// similarity tolerance of the freshly computed price is left alone:
    /// no new order and no cancellation for it.  When at least one side is
    /// requoted, the replaced sides' resting orders are cancelled first,
    /// one add-order follows per requoted side, and the cooldown mark
    /// moves to `now`.
    pub fn refresh_orders(&mut self, portfolio: &Portfolio, now: u64) -> (r: Vec<OrderCommand>)
        requires
            old(self).wf(),
            portfolio.wf(),
            now <= TIME_LIMIT,
        ensures
            final(self).wf(),
            ({
                let delta = crate::portfolio::spec_target_delta(
                    *portfolio,
                    spec_pair_asset(old(self).pair@),
                );
                &&& *final(self) == (Market {
                    last_order_time: if spec_refresh_emits(
                        refresh_view(*old(self)),
                        delta,
                        now as int,
                    ) {
                        now
                    } else {
                        old(self).last_order_time
                    },
                    ..*old(self)
                })
                &&& spec_refresh_commands(refresh_view(*old(self)), delta, now as int, r@)
            }),
    {
        if self.mid_price == 0 {
            return Vec::new();
        }
        let delta = portfolio.get_pair_target_delta(self.pair.clone());
        if delta == 0 {
            return Vec::new();
        }
        if now < self.last_order_time + self.config.order_cooldown_s {
            return Vec::new();
        }
        let vol = self.get_volatility();
        let reserve = self.get_reserve_price(delta, vol);
        let spread = self.get_optimal_spread(vol);
        proof {
            assert(reserve as int * spread as int <= 0x4_0000_0000_0000 * 200_000_000
                && reserve as int * spread as int >= 0) by (nonlinear_arith)
                requires
                    0 <= reserve as int <= 0x4_0000_0000_0000,
                    0 <= spread as int <= 200_000_000,
            ;
            assert(reserve as int * spread as int / (2 * SCALE as int) <= reserve as int)
                by (nonlinear_arith)
                requires
                    0 <= reserve as int,
                    0 <= spread as int <= 2 * SCALE as int,
                    SCALE as int == 100_000_000,
            ;
        }
        let half: u64 = ((reserve as u128) * (spread as u128) / (2 * SCALE as u128)) as u64;
        let bid: u64 = reserve - half;
        let ask: u64 = reserve + half;

        let emit_b = !Market::similar_order_exists(
            bid,
            &self.bid_orders,
            self.config.similar_tol_num,
            self.config.similar_tol_den,
        ) && bid >= 1;
        let emit_a = !Market::similar_order_exists(
            ask,
            &self.ask_orders,
            self.config.similar_tol_num,
            self.config.similar_tol_den,
        ) && ask >= 1;
        if !emit_b && !emit_a {
            return Vec::new();
        }

        let mut r: Vec<OrderCommand> = Vec::new();
        let mut ids: Vec<String> = Vec::new();
        if emit_b {
            push_order_keys(&mut ids, &self.bid_orders);
        }
        if emit_a {
            push_order_keys(&mut ids, &self.ask_orders);
        }
        if ids.len() > 0 {
            r.push(OrderCommand::Cancel { ids });
        }
        if emit_b {
            let size = self.order_size(bid);
            r.push(
                OrderCommand::Add {
                    pair: self.pair.clone(),
                    side: crate::schema::OrderSide::BUY,
                    price: self.round_price(bid),
                    volume: crate::decimal::format_fixed(size, 8),
                },
            );
        }
        if emit_a {
            let size = self.order_size(ask);
            r.push(
                OrderCommand::Add {
                    pair: self.pair.clone(),
                    side: crate::schema::OrderSide::SELL,
                    price: self.round_price(ask),
                    volume: crate::decimal::format_fixed(size, 8),
                },
            );
        }
        self.last_order_time = now;
        r
    }

    /// Digests one best-quote message: samples the spread, initializes
    /// the mid and last price on the first quote, never lets the inferred
    /// precision decrease, and refreshes the 24-hour volume.  A message
    /// whose bid or ask does not parse within bounds is skipped whole,
    /// and the result says so.
    pub fn on_ticker_data(&mut self, data: &crate::messages::TickerData, now: u64) -> (accepted:
        bool)
        requires
            old(self).wf(),
            now <= TIME_LIMIT,
        ensures
            accepted == spec_tick_ok(*data),
            final(self).wf(),
            final(self).pair == old(self).pair,
            final(self).config == old(self).config,
            final(self).prices == old(self).prices,
            final(self).prices_last_updated == old(self).prices_last_updated,
            final(self).bid_orders == old(self).bid_orders,
            final(self).ask_orders == old(self).ask_orders,
            final(self).last_order_time == old(self).last_order_time,
            !spec_tick_ok(*data) ==> *final(self) == *old(self),
            quote_view(*final(self)) == spec_ticker_step(
                quote_view(*old(self)),
                old(self).config,
                *data,
                now as int,
            ),
    {
        if data.b.len() < 1 || data.a.len() < 1 {
            return false;
        }
        let bid = match crate::decimal::parse_fixed(data.b[0].as_str()) {
            Some(v) => v,
            None => {
                return false;
            },
        };
        let ask = match crate::decimal::parse_fixed(data.a[0].as_str()) {
            Some(v) => v,
            None => {
                return false;
            },
        };
        if bid > PRICE_LIMIT as u64 || ask > PRICE_LIMIT as u64 {
            return false;
        }
        self.record_spread(bid, ask, now);

        let d = crate::decimal::count_decimals(data.b[0].as_str());
        if self.mid_price == 0 {
            self.mid_price = (bid + ask) / 2;
            self.last_price = self.mid_price;
            self.decimals = d;
        } else if d > self.decimals {
            self.decimals = d;
        }

        if data.v.len() >= 1 {
            match crate::decimal::parse_fixed(data.v[0].as_str()) {
                Some(v) => {
                    self.vol_24hr = v;
                },
                None => {},
            }
        }
        true
    }

    /// Dispatches one inbound frame: market data moves the price state
    /// and triggers the requote decision, order events are reconciled
    /// into the maps and the ledger, and everything else (heartbeats,
    /// status frames) is ignored.  The returned commands go out on the
    /// private stream, in order.
    pub fn on_message(
        &mut self,
        portfolio: &mut Portfolio,
        msg: &crate::messages::WSPayload,
        now: u64,
    ) -> (r: Vec<OrderCommand>)
        requires
            old(self).wf(),
            old(portfolio).wf(),
            now <= TIME_LIMIT,
        ensures
            final(self).wf(),
            final(portfolio).wf(),
            final(self).pair == old(self).pair,
            final(self).config == old(self).config,
            (msg matches crate::messages::WSPayload::Heartbeat(_) ==> *final(self) == *old(self) && *final(portfolio) == *old(portfolio) && r@.len() == 0),
            (msg matches crate::messages::WSPayload::SystemStatus(_) ==> *final(self)
                == *old(self) && *final(portfolio) == *old(portfolio) && r@.len() == 0),
            (msg matches crate::messages::WSPayload::SubscriptionStatus(_) ==> *final(self)
                == *old(self) && *final(portfolio) == *old(portfolio) && r@.len() == 0),
            (msg matches crate::messages::WSPayload::PublicMessage(pm) ==> (pm.data matches
                crate::messages::PublicData::Ticker(t) ==> {
                &&& (!spec_tick_ok(t) ==> *final(self) == *old(self) && *final(portfolio)
                    == *old(portfolio) && r@.len() == 0)
                &&& (spec_tick_ok(t) ==> {
                    let q1 = spec_ticker_step(
                        quote_view(*old(self)),
                        old(self).config,
                        t,
                        now as int,
                    );
                    let v1: RefreshView = (
                        old(self).pair@,
                        old(self).config,
                        old(self).prices@,
                        q1.0,
                        q1.2,
                        old(self).bid_orders@,
                        old(self).ask_orders@,
                        old(self).last_order_time as int,
                    );
                    let delta = crate::portfolio::spec_target_delta(
                        *old(portfolio),
                        spec_pair_asset(old(self).pair@),
                    );
                    &&& quote_view(*final(self)) == q1
                    &&& final(self).pair == old(self).pair
                    &&& final(self).prices == old(self).prices
                    &&& final(self).prices_last_updated == old(self).prices_last_updated
                    &&& final(self).bid_orders == old(self).bid_orders
                    &&& final(self).ask_orders == old(self).ask_orders
                    &&& final(self).last_order_time == (if spec_refresh_emits(
                        v1,
                        delta,
                        now as int,
                    ) {
                        now
                    } else {
                        old(self).last_order_time
                    })
                    &&& spec_refresh_commands(v1, delta, now as int, r@)
                    &&& *final(portfolio) == *old(portfolio)
                })
            })),
            (msg matches crate::messages::WSPayload::PublicMessage(pm) ==> (pm.data matches
                crate::messages::PublicData::OHLC(fields) ==> {
                let ok = fields@.len() >= 6 && valid_decimal(fields@[5]@) && spec_parse_fixed(
                    fields@[5]@,
                ) <= PRICE_LIMIT as int;
                let close = spec_parse_fixed(fields@[5]@);
                let sampled = close > 0 && now as int >= old(self).prices_last_updated as int
                    + old(self).config.price_record_interval_s;
                let prices1 = if !sampled {
                    old(self).prices@
                } else if old(self).prices@.len() < BUFFER_SIZE {
                    old(self).prices@.push(close as u64)
                } else {
                    old(self).prices@.drop_first().push(close as u64)
                };
                let marked = sampled && spec_has_usd_suffix(old(self).pair@) && old(
                    portfolio,
                ).contents().contains_key(spec_pair_asset(old(self).pair@));
                let v1: RefreshView = (
                    old(self).pair@,
                    old(self).config,
                    prices1,
                    close,
                    old(self).decimals as int,
                    old(self).bid_orders@,
                    old(self).ask_orders@,
                    old(self).last_order_time as int,
                );
                let delta = crate::portfolio::spec_target_delta(
                    *final(portfolio),
                    spec_pair_asset(old(self).pair@),
                );
                &&& (!ok ==> *final(self) == *old(self) && *final(portfolio) == *old(
                    portfolio,
                ) && r@.len() == 0)
                &&& (ok ==> {
                    &&& final(self).mid_price as int == close
                    &&& final(self).prices@ == prices1
                    &&& final(self).prices_last_updated == (if sampled {
                        now
                    } else {
                        old(self).prices_last_updated
                    })
                    &&& final(self).pair == old(self).pair
                    &&& final(self).last_price == old(self).last_price
                    &&& final(self).decimals == old(self).decimals
                    &&& final(self).vol_24hr == old(self).vol_24hr
                    &&& final(self).spreads == old(self).spreads
                    &&& final(self).spreads_last_updated == old(self).spreads_last_updated
                    &&& final(self).bid_orders == old(self).bid_orders
                    &&& final(self).ask_orders == old(self).ask_orders
                    &&& final(self).last_order_time == (if spec_refresh_emits(
                        v1,
                        delta,
                        now as int,
                    ) {
                        now
                    } else {
                        old(self).last_order_time
                    })
                    &&& (marked ==> final(portfolio).contents() == old(
                        portfolio,
                    ).contents().insert(
                        spec_pair_asset(old(self).pair@),
                        (Position {
                            amount: old(portfolio).contents()[spec_pair_asset(
                                old(self).pair@,
                            )].amount,
                            price: close as i64,
                        }),
                    ))
                    &&& (!marked ==> final(portfolio).contents() == old(
                        portfolio,
                    ).contents())
                    &&& spec_refresh_commands(v1, delta, now as int, r@)
                })
            })),
            (msg matches crate::messages::WSPayload::OpenOrders(oo) ==> r@.len() == 0 && ({
                let t = spec_order_events_fold(
                    (
                        orders_map(old(self).bid_orders@),
                        orders_map(old(self).ask_orders@),
                        old(portfolio).contents(),
                        old(self).last_price as int,
                    ),
                    old(self).pair@,
                    old(self).config,
                    spec_flatten_batches(oo.orders@),
                );
                &&& orders_map(final(self).bid_orders@) == t.0
                &&& orders_map(final(self).ask_orders@) == t.1
                &&& final(portfolio).contents() == t.2
                &&& final(self).last_price as int == t.3
            })),
    {
        match msg {
            crate::messages::WSPayload::PublicMessage(pm) => {
                match &pm.data {
                    crate::messages::PublicData::Ticker(t) => {
                        if self.on_ticker_data(t, now) {
                            self.refresh_orders(portfolio, now)
                        } else {
                            Vec::new()
                        }
                    },
                    crate::messages::PublicData::OHLC(fields) => {
                        if fields.len() < 6 {
                            return Vec::new();
                        }
                        let close = match crate::decimal::parse_fixed(fields[5].as_str()) {
                            Some(v) => v,
                            None => {
                                return Vec::new();
                            },
                        };
                        if close > PRICE_LIMIT as u64 {
                            return Vec::new();
                        }
                        self.mid_price = close;
                        if close > 0 {
                            self.record_price(portfolio, close, now);
                        }
                        self.refresh_orders(portfolio, now)
                    },
                }
            },
            crate::messages::WSPayload::OpenOrders(orders) => {
                self.handle_order_update(portfolio, orders);
                Vec::new()
            },
            crate::messages::WSPayload::SystemStatus(_) => Vec::new(),
            crate::messages::WSPayload::SubscriptionStatus(_) => Vec::new(),
            crate::messages::WSPayload::Heartbeat(_) => Vec::new(),
        }
    }

    /// Applies a batched open-orders event: every entry of every batch,
    /// in delivery order, folded through `spec_order_event`.
    pub fn handle_order_update(&mut self, portfolio: &mut Portfolio, orders: &OpenOrders)
        requires
            old(self).wf(),
            old(portfolio).wf(),
        ensures
            final(self).wf(),
            final(portfolio).wf(),
            final(self).pair == old(self).pair,
            final(self).decimals == old(self).decimals,
            final(self).mid_price == old(self).mid_price,
            final(self).prices == old(self).prices,
            final(self).spreads == old(self).spreads,
            final(self).last_order_time == old(self).last_order_time,
            final(self).config == old(self).config,
            ({
                let t = spec_order_events_fold(
                    (
                        orders_map(old(self).bid_orders@),
                        orders_map(old(self).ask_orders@),
                        old(portfolio).contents(),
                        old(self).last_price as int,
                    ),
                    old(self).pair@,
                    old(self).config,
                    spec_flatten_batches(orders.orders@),
                );
                &&& orders_map(final(self).bid_orders@) == t.0
                &&& orders_map(final(self).ask_orders@) == t.1
                &&& final(portfolio).contents() == t.2
                &&& final(self).last_price as int == t.3
            }),
    {
        let ghost s0: ReconcileState = (
            orders_map(self.bid_orders@),
            orders_map(self.ask_orders@),
            portfolio.contents(),
            self.last_price as int,
        );
        let nb = orders.orders.len();
        let mut b: usize = 0;
        proof {
            assert(orders.orders@.take(0) =~= Seq::<Vec<(String, OrderData)>>::empty());
        }
        while b < nb
            invariant
                self.wf(),
                portfolio.wf(),
                nb == orders.orders@.len(),
                0 <= b <= nb,
                self.pair == old(self).pair,
                self.decimals == old(self).decimals,
                self.mid_price == old(self).mid_price,
                self.prices == old(self).prices,
                self.spreads == old(self).spreads,
                self.last_order_time == old(self).last_order_time,
                self.config == old(self).config,
                s0 == (
                    orders_map(old(self).bid_orders@),
                    orders_map(old(self).ask_orders@),
                    old(portfolio).contents(),
                    old(self).last_price as int,
                ),
                (
                    orders_map(self.bid_orders@),
                    orders_map(self.ask_orders@),
                    portfolio.contents(),
                    self.last_price as int,
                ) == spec_order_events_fold(
                    s0,
                    old(self).pair@,
                    old(self).config,
                    spec_flatten_batches(orders.orders@.take(b as int)),
                ),
            decreases nb - b,
        {
            proof {
                assert(orders.orders@.take(b + 1).drop_last() =~= orders.orders@.take(
                    b as int,
                ));
                assert(orders.orders@.take(b + 1).last() == orders.orders@[b as int]);
            }
            let ghost flat_prefix = spec_flatten_batches(orders.orders@.take(b as int));
            let ne = orders.orders[b].len();
            let mut e: usize = 0;
            proof {
                assert(orders.orders@[b as int]@.take(0) =~= Seq::<
                    (String, OrderData),
                >::empty());
                assert(flat_prefix + orders.orders@[b as int]@.take(0) =~= flat_prefix);
            }
            while e < ne
                invariant
                    self.wf(),
                    portfolio.wf(),
                    nb == orders.orders@.len(),
                    0 <= b < nb,
                    ne == orders.orders@[b as int]@.len(),
                    0 <= e <= ne,
                    self.pair == old(self).pair,
                    self.decimals == old(self).decimals,
                    self.mid_price == old(self).mid_price,
                    self.prices == old(self).prices,
                    self.spreads == old(self).spreads,
                    self.last_order_time == old(self).last_order_time,
                    self.config == old(self).config,
                    s0 == (
                        orders_map(old(self).bid_orders@),
                        orders_map(old(self).ask_orders@),
                        old(portfolio).contents(),
                        old(self).last_price as int,
                    ),
                    flat_prefix == spec_flatten_batches(orders.orders@.take(b as int)),
                    (
                        orders_map(self.bid_orders@),
                        orders_map(self.ask_orders@),
                        portfolio.contents(),
                        self.last_price as int,
                    ) == spec_order_events_fold(
                        s0,
                        old(self).pair@,
                        old(self).config,
                        flat_prefix + orders.orders@[b as int]@.take(e as int),
                    ),
                decreases ne - e,
            {
                proof {
                    assert((flat_prefix + orders.orders@[b as int]@.take(e + 1)).drop_last()
                        =~= flat_prefix + orders.orders@[b as int]@.take(e as int));
                    assert((flat_prefix + orders.orders@[b as int]@.take(e + 1)).last()
                        == orders.orders@[b as int]@[e as int]);
                }
                let entry = &orders.orders[b][e];
                self.apply_order_event(portfolio, &entry.0, &entry.1);
                e += 1;
            }
            proof {
                assert(orders.orders@[b as int]@.take(ne as int)
                    =~= orders.orders@[b as int]@);
                assert(flat_prefix + orders.orders@[b as int]@ =~= spec_flatten_batches(
                    orders.orders@.take(b + 1),
                ));
            }
            b += 1;
        }
        proof {
            assert(orders.orders@.take(nb as int) =~= orders.orders@);
        }
    }
}

} // verus!
