//! The shared inventory ledger.
//!
//! A portfolio maps asset symbols to positions: an amount and a reference
//! price, both fixed-point integers (see `decimal::SCALE`).  The quote
//! currency is an ordinary position priced at one.  All mutation goes
//! through a handful of operations with exact contracts; the allocation
//! target math never divides by zero by construction.

use vstd::prelude::*;

verus! {

use crate::decimal::{SCALE, spec_parse_fixed, valid_decimal};

/// Largest amount a position may hold: two to the forty-ninth fixed-point
/// units, about 5.6 million whole units.
pub const AMOUNT_LIMIT: i64 = 0x2_0000_0000_0000;

/// Largest reference price a position may carry, on the same scale.
pub const PRICE_LIMIT: i64 = 0x2_0000_0000_0000;

/// Most assets a portfolio may track.
pub const MAX_ASSETS: usize = 4096;

/// Scale of the dimensionless target-delta pressure signal: `DELTA_SCALE`
/// is one point of deviation, with fifty points meaning a whole target's
/// worth.
pub const DELTA_SCALE: i64 = 1_000;

/// The pressure signal is clamped at fifty points either way.
pub const DELTA_MAX: i64 = 50_000;

/// One asset position: how much is held and at what reference price it is
/// marked.
#[derive(PartialEq, Eq, Structural, Clone, Copy, Debug)]
pub struct Position {
    pub amount: i64,
    pub price: i64,
}

/// Asset-keyed ledger of positions.
pub struct Portfolio {
    assets: Vec<(String, Position)>,
}

/// The map an association list denotes; later entries would win, but the
/// portfolio keeps its keys unique.
pub open spec fn assoc_map(s: Seq<(String, Position)>) -> Map<Seq<char>, Position>
    decreases s.len(),
{
    if s.len() == 0 {
        Map::empty()
    } else {
        assoc_map(s.drop_last()).insert(s.last().0@, s.last().1)
    }
}

pub open spec fn unique_keys(s: Seq<(String, Position)>) -> bool {
    forall|i: int, j: int| 0 <= i < j < s.len() ==> s[i].0@ != s[j].0@
}

pub open spec fn position_ok(p: Position) -> bool {
    -AMOUNT_LIMIT <= p.amount <= AMOUNT_LIMIT && 0 <= p.price <= PRICE_LIMIT
}

/// Mark-to-market value of the whole list.
pub open spec fn total_value_seq(s: Seq<(String, Position)>) -> int
    decreases s.len(),
{
    if s.len() == 0 {
        0
    } else {
        total_value_seq(s.drop_last()) + s.last().1.amount * s.last().1.price
    }
}

/// A position counts as held when it has positive value.
pub open spec fn is_held(p: Position) -> bool {
    p.amount > 0 && p.price > 0
}

/// Number of held assets.
pub open spec fn held_count_seq(s: Seq<(String, Position)>) -> int
    decreases s.len(),
{
    if s.len() == 0 {
        0
    } else {
        held_count_seq(s.drop_last()) + if is_held(s.last().1) {
            1int
        } else {
            0int
        }
    }
}

impl Portfolio {
    /// The ledger as a map from asset symbol to position.
    pub closed spec fn contents(self) -> Map<Seq<char>, Position> {
        assoc_map(self.assets@)
    }

    /// The entries in insertion order, for aggregate statements.
    pub closed spec fn entries(self) -> Seq<(String, Position)> {
        self.assets@
    }

    pub closed spec fn wf(self) -> bool {
        &&& unique_keys(self.assets@)
        &&& forall|i: int|
            0 <= i < self.assets@.len() ==> position_ok(#[trigger] self.assets@[i].1)
        &&& self.assets@.len() <= MAX_ASSETS
    }

    /// Mark-to-market value of everything held, quote currency included.
    pub closed spec fn total_value(self) -> int {
        total_value_seq(self.assets@)
    }

    /// How many assets have positive value.
    pub closed spec fn held_count(self) -> int {
        held_count_seq(self.assets@)
    }

    /// Value of one asset, zero when untracked.
    pub open spec fn value_of(self, a: Seq<char>) -> int {
        if self.contents().contains_key(a) {
            self.contents()[a].amount * self.contents()[a].price
        } else {
            0
        }
    }

    pub fn new() -> (r: Portfolio)
        ensures
            r.wf(),
            r.contents() == Map::<Seq<char>, Position>::empty(),
            r.entries() == Seq::<(String, Position)>::empty(),
            r.total_value() == 0,
            r.held_count() == 0,
    {
        Portfolio { assets: Vec::new() }
    }

    /// Index of the asset in the list, if tracked.
    fn find(&self, asset: &String) -> (r: Option<usize>)
        requires
            self.wf(),
        ensures
            match r {
                Some(i) => i < self.assets@.len() && self.assets@[i as int].0@ == asset@
                    && self.contents().contains_key(asset@) && self.contents()[asset@]
                    == self.assets@[i as int].1,
                None => !self.contents().contains_key(asset@),
            },
    {
        let n = self.assets.len();
        let mut i: usize = 0;
        while i < n
            invariant
                self.wf(),
                n == self.assets@.len(),
                0 <= i <= n,
                forall|j: int| 0 <= j < i ==> self.assets@[j].0@ != asset@,
            decreases n - i,
        {
            if self.assets[i].0 == *asset {
                proof {
                    lemma_assoc_at(self.assets@, i as int);
                }
                return Some(i);
            }
            i += 1;
        }
        proof {
            lemma_assoc_absent(self.assets@, asset@);
        }
        None
    }

    /// Returns a tuple of the amount and price of the asset; an untracked
    /// asset reads as zero of both, never an error.
    pub fn get_asset(&self, asset: String) -> (r: (i64, i64))
        requires
            self.wf(),
        ensures
            self.contents().contains_key(asset@) ==> r == (
                self.contents()[asset@].amount,
                self.contents()[asset@].price,
            ),
            !self.contents().contains_key(asset@) ==> r == (0i64, 0i64),
    {
        match self.find(&asset) {
            Some(i) => (self.assets[i].1.amount, self.assets[i].1.price),
            None => (0, 0),
        }
    }

    /// Creates or overwrites a position.
    pub fn set_asset(&mut self, asset: String, amount: i64, price: i64)
        requires
            old(self).wf(),
            -AMOUNT_LIMIT <= amount <= AMOUNT_LIMIT,
            0 <= price <= PRICE_LIMIT,
            old(self).contents().contains_key(asset@) || old(self).entries().len()
                < MAX_ASSETS,
        ensures
            final(self).wf(),
            final(self).contents() == old(self).contents().insert(
                asset@,
                Position { amount, price },
            ),
            final(self).total_value() == old(self).total_value() - old(self).value_of(
                asset@,
            ) + amount * price,
            final(self).held_count() == old(self).held_count() - (
            if old(self).contents().contains_key(asset@) && is_held(
                old(self).contents()[asset@],
            ) {
                1int
            } else {
                0int
            }) + (
            if is_held(Position { amount, price }) {
                1int
            } else {
                0int
            }),
            final(self).entries().len() == old(self).entries().len() + (
            if old(self).contents().contains_key(asset@) {
                0int
            } else {
                1int
            }),
    {
        let pos = Position { amount, price };
        match self.find(&asset) {
            Some(i) => {
                let ghost olds = self.assets@;
                let ghost e = (asset, pos);
                self.assets.set(i, (asset, pos));
                proof {
                    assert(self.assets@ =~= olds.update(i as int, e));
                    lemma_assoc_at(olds, i as int);
                    lemma_assoc_update(olds, i as int, e);
                    lemma_totals_update(olds, i as int, e);
                    assert(forall|j: int|
                        0 <= j < self.assets@.len() ==> position_ok(
                            #[trigger] self.assets@[j].1,
                        )) by {
                        assert(forall|j: int|
                            0 <= j < olds.len() && j != i ==> olds.update(i as int, e)[j]
                                == olds[j]);
                    }
                }
            },
            None => {
                let ghost olds = self.assets@;
                let ghost e = (asset, pos);
                self.assets.push((asset, pos));
                proof {
                    assert(self.assets@ =~= olds.push(e));
                    assert(self.assets@.drop_last() =~= olds);
                    assert(self.assets@.last() == e);
                    assert forall|x: int| 0 <= x < olds.len() implies olds[x].0@ != asset@ by {
                        lemma_assoc_at(olds, x);
                    }
                    assert(unique_keys(self.assets@)) by {
                        assert(forall|x: int|
                            0 <= x < olds.len() ==> self.assets@[x] == olds[x]);
                    }
                    assert(forall|j: int|
                        0 <= j < self.assets@.len() ==> position_ok(
                            #[trigger] self.assets@[j].1,
                        )) by {
                        assert(forall|x: int|
                            0 <= x < olds.len() ==> self.assets@[x] == olds[x]);
                    }
                    lemma_assoc_absent(olds, asset@);
                }
            },
        }
    }
}

/// Whether a pair name carries the quote-currency suffix "/USD".
pub open spec fn spec_has_usd_suffix(p: Seq<char>) -> bool {
    p.len() >= 4 && p.subrange(p.len() - 4, p.len() as int) == seq!['/', 'U', 'S', 'D']
}

/// The base asset a trading pair refers to: the pair without its "/USD"
/// suffix, or the whole name when it has none.
pub open spec fn spec_pair_asset(p: Seq<char>) -> Seq<char> {
    if spec_has_usd_suffix(p) {
        p.take(p.len() - 4)
    } else {
        p
    }
}

/// An exchange balance symbol with a single leading 'X' prefix removed.
pub open spec fn spec_normalize_asset(a: Seq<char>) -> Seq<char> {
    if a.len() >= 1 && a[0] == 'X' {
        a.skip(1)
    } else {
        a
    }
}

pub fn has_usd_suffix(pair: &str) -> (r: bool)
    ensures
        r == spec_has_usd_suffix(pair@),
{
    let n = pair.unicode_len();
    if n >= 4 {
        let c0 = pair.get_char(n - 4);
        let c1 = pair.get_char(n - 3);
        let c2 = pair.get_char(n - 2);
        let c3 = pair.get_char(n - 1);
        proof {
            assert(pair@.subrange(n - 4, n as int)[0] == pair@[n as int - 4]);
            assert(pair@.subrange(n - 4, n as int)[1] == pair@[n as int - 3]);
            assert(pair@.subrange(n - 4, n as int)[2] == pair@[n as int - 2]);
            assert(pair@.subrange(n - 4, n as int)[3] == pair@[n as int - 1]);
        }
        if c0 == '/' && c1 == 'U' && c2 == 'S' && c3 == 'D' {
            proof {
                assert(pair@.subrange(n - 4, n as int) =~= seq!['/', 'U', 'S', 'D']);
            }
            return true;
        }
        false
    } else {
        false
    }
}

/// Strips a trailing "/USD" from a pair name.
pub fn pair_asset(pair: &str) -> (r: String)
    ensures
        r@ == spec_pair_asset(pair@),
{
    if has_usd_suffix(pair) {
        let n = pair.unicode_len();
        let s = pair.substring_char(0, n - 4);
        s.to_owned()
    } else {
        pair.to_owned()
    }
}

/// Strips a single leading 'X' from a balance symbol.
pub fn normalize_asset(asset: &str) -> (r: String)
    ensures
        r@ == spec_normalize_asset(asset@),
{
    let n = asset.unicode_len();
    if n >= 1 && asset.get_char(0) == 'X' {
        let s = asset.substring_char(1, n);
        proof {
            assert(asset@.subrange(1, n as int) =~= asset@.skip(1));
        }
        s.to_owned()
    } else {
        asset.to_owned()
    }
}

/// The ledger key of the quote currency.
pub open spec fn quote_key() -> Seq<char> {
    "ZUSD"@
}

/// The quote-currency symbol as an owned string.
pub fn quote_symbol() -> (r: String)
    ensures
        r@ == quote_key(),
{
    "ZUSD".to_owned()
}

/// With unique keys, the map agrees with every list entry.
pub proof fn lemma_assoc_at(s: Seq<(String, Position)>, i: int)
    requires
        unique_keys(s),
        0 <= i < s.len(),
    ensures
        assoc_map(s).contains_key(s[i].0@),
        assoc_map(s)[s[i].0@] == s[i].1,
    decreases s.len(),
{
    if i == s.len() - 1 {
    } else {
        assert(unique_keys(s.drop_last())) by {
            assert(forall|x: int, y: int|
                0 <= x < y < s.len() - 1 ==> s.drop_last()[x].0@ != s.drop_last()[y].0@);
        }
        assert(s.drop_last()[i] == s[i]);
        lemma_assoc_at(s.drop_last(), i);
        assert(s[i].0@ != s.last().0@);
    }
}

/// A key on no entry is not in the map.
pub proof fn lemma_assoc_absent(s: Seq<(String, Position)>, a: Seq<char>)
    requires
        forall|i: int| 0 <= i < s.len() ==> s[i].0@ != a,
    ensures
        !assoc_map(s).contains_key(a),
    decreases s.len(),
{
    if s.len() > 0 {
        assert(forall|i: int| 0 <= i < s.len() - 1 ==> s.drop_last()[i].0@ != a);
        lemma_assoc_absent(s.drop_last(), a);
    }
}

/// Replacing the entry at `i` by one with the same key updates the map at
/// that key alone.
pub proof fn lemma_assoc_update(s: Seq<(String, Position)>, i: int, e: (String, Position))
    requires
        unique_keys(s),
        0 <= i < s.len(),
        e.0@ == s[i].0@,
    ensures
        assoc_map(s.update(i, e)) == assoc_map(s).insert(e.0@, e.1),
        unique_keys(s.update(i, e)),
    decreases s.len(),
{
    let t = s.update(i, e);
    assert(unique_keys(t)) by {
        assert(forall|x: int, y: int| 0 <= x < y < t.len() ==> t[x].0@ != t[y].0@) by {
            assert(forall|x: int| 0 <= x < s.len() ==> t[x].0@ == s[x].0@);
        }
    }
    if i == s.len() - 1 {
        assert(t.drop_last() =~= s.drop_last());
        assert(assoc_map(t) =~= assoc_map(s).insert(e.0@, e.1));
    } else {
        assert(unique_keys(s.drop_last())) by {
            assert(forall|x: int, y: int|
                0 <= x < y < s.len() - 1 ==> s.drop_last()[x].0@ != s.drop_last()[y].0@);
        }
        assert(t.drop_last() =~= s.drop_last().update(i, e));
        assert(s.drop_last()[i] == s[i]);
        lemma_assoc_update(s.drop_last(), i, e);
        assert(t.last() == s.last());
        assert(assoc_map(t) == assoc_map(s.drop_last()).insert(e.0@, e.1).insert(
            s.last().0@,
            s.last().1,
        ));
        assert(s.last().0@ != e.0@);
        assert(assoc_map(s.drop_last()).insert(e.0@, e.1).insert(s.last().0@, s.last().1)
            =~= assoc_map(s.drop_last()).insert(s.last().0@, s.last().1).insert(e.0@, e.1));
    }
}

/// Reading one more entry adds its value and held flag.
pub proof fn lemma_totals_take_step(s: Seq<(String, Position)>, i: int)
    requires
        0 <= i < s.len(),
    ensures
        total_value_seq(s.take(i + 1)) == total_value_seq(s.take(i)) + s[i].1.amount
            * s[i].1.price,
        held_count_seq(s.take(i + 1)) == held_count_seq(s.take(i)) + if is_held(s[i].1) {
            1int
        } else {
            0int
        },
{
    assert(s.take(i + 1).drop_last() =~= s.take(i));
    assert(s.take(i + 1).last() == s[i]);
}

/// The normalized pressure toward the equal-weight target for one asset:
/// zero when the asset is untracked, the total value is not positive or
/// nothing is held; otherwise the deviation `total - held * value`, as a
/// fraction of total value, scaled to `DELTA_MAX` at one whole target and
/// clamped there.  Positive means underweight (buying reduces deviation).
pub open spec fn spec_target_delta(p: Portfolio, a: Seq<char>) -> int {
    let t = p.total_value();
    let n = p.held_count();
    if !p.contents().contains_key(a) || t <= 0 || n == 0 {
        0
    } else {
        let num = t - n * p.value_of(a);
        let raw = if num >= 0 {
            DELTA_MAX * num / t
        } else {
            -(DELTA_MAX * (-num) / t)
        };
        if raw > DELTA_MAX as int {
            DELTA_MAX as int
        } else if raw < -DELTA_MAX as int {
            -DELTA_MAX as int
        } else {
            raw
        }
    }
}

/// What a buy (positive volume) or sell (negative volume) of `v` at price
/// `p` does to the quote-currency amount: the value `v * p`, descaled,
/// truncated toward zero.
pub open spec fn spec_quote_cost(v: int, p: int) -> int {
    if v >= 0 {
        (v * p) / SCALE as int
    } else {
        -(((-v) * p) / SCALE as int)
    }
}

/// One position's value fits well inside the word size.
proof fn lemma_value_bounds(a: int, p: int)
    requires
        -AMOUNT_LIMIT <= a <= AMOUNT_LIMIT,
        0 <= p <= PRICE_LIMIT,
    ensures
        -0x4_0000_0000_0000_0000_0000_0000 <= a * p <= 0x4_0000_0000_0000_0000_0000_0000,
{
    assert(-0x4_0000_0000_0000_0000_0000_0000 <= a * p <= 0x4_0000_0000_0000_0000_0000_0000)
        by (nonlinear_arith)
        requires
            -0x2_0000_0000_0000 <= a <= 0x2_0000_0000_0000,
            0 <= p <= 0x2_0000_0000_0000,
    ;
}

impl Portfolio {
    fn totals(&self) -> (r: (i128, u64))
        requires
            self.wf(),
        ensures
            r.0 as int == self.total_value(),
            r.1 as int == self.held_count(),
            -0x4000_0000_0000_0000_0000_0000_0000 <= r.0 as int
                <= 0x4000_0000_0000_0000_0000_0000_0000,
            r.1 <= 4096,
    {
        let n = self.assets.len();
        let mut t: i128 = 0;
        let mut held: u64 = 0;
        let mut i: usize = 0;
        proof {
            assert(self.assets@.take(0) =~= Seq::<(String, Position)>::empty());
        }
        while i < n
            invariant
                self.wf(),
                n == self.assets@.len(),
                0 <= i <= n,
                t as int == total_value_seq(self.assets@.take(i as int)),
                -(i as int) * 0x4_0000_0000_0000_0000_0000_0000 <= t as int <= (i as int)
                    * 0x4_0000_0000_0000_0000_0000_0000,
                held as int == held_count_seq(self.assets@.take(i as int)),
                held <= i,
            decreases n - i,
        {
            let a = self.assets[i].1.amount;
            let p = self.assets[i].1.price;
            proof {
                lemma_totals_take_step(self.assets@, i as int);
                lemma_value_bounds(a as int, p as int);
            }
            let prod: i128 = (a as i128) * (p as i128);
            t = t + prod;
            if a > 0 && p > 0 {
                held = held + 1;
            }
            i += 1;
        }
        proof {
            assert(self.assets@.take(n as int) =~= self.assets@);
        }
        (t, held)
    }

    /// The pressure signal for one asset (see `spec_target_delta`).
    pub fn target_delta(&self, asset: &String) -> (r: i64)
        requires
            self.wf(),
        ensures
            r as int == spec_target_delta(*self, asset@),
            -DELTA_MAX <= r <= DELTA_MAX,
            !self.contents().contains_key(asset@) ==> r == 0,
            self.total_value() <= 0 ==> r == 0,
    {
        let idx = match self.find(asset) {
            Some(i) => i,
            None => {
                return 0;
            },
        };
        let (t, held) = self.totals();
        if t <= 0 || held == 0 {
            return 0;
        }
        let a = self.assets[idx].1.amount;
        let p = self.assets[idx].1.price;
        proof {
            lemma_value_bounds(a as int, p as int);
        }
        let v: i128 = (a as i128) * (p as i128);
        proof {
            assert(-0x4000_0000_0000_0000_0000_0000_0000 <= (held as int) * (v as int)
                <= 0x4000_0000_0000_0000_0000_0000_0000) by (nonlinear_arith)
                requires
                    0 <= held as int <= 4096,
                    -0x4_0000_0000_0000_0000_0000_0000 <= v as int
                        <= 0x4_0000_0000_0000_0000_0000_0000,
            ;
        }
        let num: i128 = t - (held as i128) * v;
        let tu: u128 = t as u128;
        if num >= 0 {
            proof {
                assert(DELTA_MAX as int * (num as int) <= u128::MAX as int)
                    by (nonlinear_arith)
                    requires
                        0 <= num as int <= 0x8000_0000_0000_0000_0000_0000_0000,
                        DELTA_MAX == 50_000,
                ;
            }
            let raw: u128 = (DELTA_MAX as u128 * num as u128) / tu;
            if raw > DELTA_MAX as u128 {
                DELTA_MAX
            } else {
                raw as i64
            }
        } else {
            proof {
                assert(DELTA_MAX as int * (-(num as int)) <= u128::MAX as int)
                    by (nonlinear_arith)
                    requires
                        0 <= -(num as int) <= 0x8000_0000_0000_0000_0000_0000_0000,
                        DELTA_MAX == 50_000,
                ;
            }
            let raw: u128 = (DELTA_MAX as u128 * (-num) as u128) / tu;
            if raw > DELTA_MAX as u128 {
                -DELTA_MAX
            } else {
                -(raw as i64)
            }
        }
    }
}

/// Whether a fill of `v` at price `prc` on `pairseq` can be applied to a
/// ledger: both legs' assets are tracked and both new amounts stay in
/// bounds.
pub open spec fn spec_fill_applies(m: Map<Seq<char>, Position>, pairseq: Seq<char>, v: int, prc: int) -> bool {
    let a = spec_pair_asset(pairseq);
    &&& m.contains_key(a)
    &&& m.contains_key(quote_key())
    &&& -AMOUNT_LIMIT <= m[a].amount + v <= AMOUNT_LIMIT
    &&& {
        let mid = if a == quote_key() {
            m[a].amount + v
        } else {
            m[quote_key()].amount as int
        };
        -AMOUNT_LIMIT <= mid - spec_quote_cost(v, prc) <= AMOUNT_LIMIT
    }
}

/// The ledger after a fill: the base leg gains the volume and takes the
/// fill price; the quote leg then pays the descaled cost, keeping its own
/// price.  Both legs move, or (see `update_pair`) neither.
pub open spec fn spec_apply_fill(m: Map<Seq<char>, Position>, pairseq: Seq<char>, v: int, prc: int) -> Map<
    Seq<char>,
    Position,
> {
    let a = spec_pair_asset(pairseq);
    let m1 = m.insert(
        a,
        Position { amount: (m[a].amount + v) as i64, price: prc as i64 },
    );
    m1.insert(
        quote_key(),
        Position {
            amount: (m1[quote_key()].amount - spec_quote_cost(v, prc)) as i64,
            price: m1[quote_key()].price,
        },
    )
}

impl Portfolio {
    /// Returns the amount and price of the base asset of a pair.
    pub fn get_pair(&self, pair: String) -> (r: (i64, i64))
        requires
            self.wf(),
        ensures
            self.contents().contains_key(spec_pair_asset(pair@)) ==> r == (
                self.contents()[spec_pair_asset(pair@)].amount,
                self.contents()[spec_pair_asset(pair@)].price,
            ),
            !self.contents().contains_key(spec_pair_asset(pair@)) ==> r == (0i64, 0i64),
    {
        let asset = pair_asset(pair.as_str());
        self.get_asset(asset)
    }

    /// The pressure signal for an asset named directly.
    pub fn get_asset_target_delta(&self, asset: String) -> (r: i64)
        requires
            self.wf(),
        ensures
            r as int == spec_target_delta(*self, asset@),
    {
        self.target_delta(&asset)
    }

    /// The pressure signal for the base asset of a pair.
    pub fn get_pair_target_delta(&self, pair: String) -> (r: i64)
        requires
            self.wf(),
        ensures
            r as int == spec_target_delta(*self, spec_pair_asset(pair@)),
    {
        let asset = pair_asset(pair.as_str());
        self.target_delta(&asset)
    }

    /// Applies a fill to the ledger: the pair's base asset gains the signed
    /// volume and takes the fill price, and the quote currency pays the
    /// cost.  Both legs are applied as one logical update, or neither is
    /// (the result says which), so the ledger never records half a fill.
    pub fn update_pair(&mut self, pair: String, order_vol: i64, order_price: i64) -> (applied:
        bool)
        requires
            old(self).wf(),
            -AMOUNT_LIMIT <= order_vol <= AMOUNT_LIMIT,
            0 <= order_price <= PRICE_LIMIT,
        ensures
            final(self).wf(),
            applied == spec_fill_applies(
                old(self).contents(),
                pair@,
                order_vol as int,
                order_price as int,
            ),
            applied ==> final(self).contents() == spec_apply_fill(
                old(self).contents(),
                pair@,
                order_vol as int,
                order_price as int,
            ),
            !applied ==> final(self).contents() == old(self).contents(),
            final(self).entries().len() <= old(self).entries().len(),
    {
        let asset = pair_asset(pair.as_str());
        let zusd = quote_symbol();
        let ai = match self.find(&asset) {
            Some(i) => i,
            None => {
                return false;
            },
        };
        let qi = match self.find(&zusd) {
            Some(i) => i,
            None => {
                return false;
            },
        };
        let a_amt = self.assets[ai].1.amount;
        let q_amt = self.assets[qi].1.amount;
        let q_prc = self.assets[qi].1.price;

        let base_new: i128 = a_amt as i128 + order_vol as i128;
        if base_new < -AMOUNT_LIMIT as i128 || base_new > AMOUNT_LIMIT as i128 {
            return false;
        }
        let vol_mag: u64 = if order_vol >= 0 {
            order_vol as u64
        } else {
            (-order_vol) as u64
        };
        proof {
            assert(vol_mag as int * order_price as int <= 0x4_0000_0000_0000_0000_0000_0000)
                by (nonlinear_arith)
                requires
                    0 <= vol_mag as int <= 0x2_0000_0000_0000,
                    0 <= order_price as int <= 0x2_0000_0000_0000,
            ;
        }
        let cost_mag: u128 = (vol_mag as u128 * order_price as u128) / (SCALE as u128);
        let cost: i128 = if order_vol >= 0 {
            cost_mag as i128
        } else {
            -(cost_mag as i128)
        };
        proof {
            assert(cost as int == spec_quote_cost(order_vol as int, order_price as int));
        }
        let same_leg = ai == qi;
        let mid: i128 = if same_leg {
            base_new
        } else {
            q_amt as i128
        };
        let quote_new: i128 = mid - cost;
        if quote_new < -AMOUNT_LIMIT as i128 || quote_new > AMOUNT_LIMIT as i128 {
            return false;
        }
        proof {
            if same_leg {
                assert(asset@ == quote_key());
            } else {
                assert(asset@ != quote_key());
            }
        }
        let quote_price: i64 = if same_leg {
            order_price
        } else {
            q_prc
        };
        self.set_asset(asset, base_new as i64, order_price);
        self.set_asset(zusd, quote_new as i64, quote_price);
        true
    }

    /// Refreshes the reference price of the base asset of a "/USD" pair,
    /// touching nothing else; other pairs and untracked assets are left
    /// alone.
    pub fn set_pair_price(&mut self, pair: String, new_price: i64)
        requires
            old(self).wf(),
            0 <= new_price <= PRICE_LIMIT,
        ensures
            final(self).wf(),
            spec_has_usd_suffix(pair@) && old(self).contents().contains_key(
                spec_pair_asset(pair@),
            ) ==> final(self).contents() == old(self).contents().insert(
                spec_pair_asset(pair@),
                Position {
                    amount: old(self).contents()[spec_pair_asset(pair@)].amount,
                    price: new_price,
                },
            ),
            !(spec_has_usd_suffix(pair@) && old(self).contents().contains_key(
                spec_pair_asset(pair@),
            )) ==> final(self).contents() == old(self).contents(),
            final(self).entries().len() <= old(self).entries().len(),
    {
        if !has_usd_suffix(pair.as_str()) {
            return ;
        }
        let asset = pair_asset(pair.as_str());
        let amt = match self.find(&asset) {
            Some(i) => self.assets[i].1.amount,
            None => {
                return ;
            },
        };
        self.set_asset(asset, amt, new_price);
    }
}

/// Whether one balance entry enters the opening snapshot: a parsable
/// decimal amount, not zero, within the ledger's bounds.
pub open spec fn spec_balance_keep(amount_str: Seq<char>) -> bool {
    valid_decimal(amount_str) && 0 < spec_parse_fixed(amount_str) && spec_parse_fixed(
        amount_str,
    ) <= AMOUNT_LIMIT as int
}

/// The opening ledger an exchange balance snapshot denotes: kept entries in
/// order, keyed by normalized symbol, the quote currency priced at one and
/// everything else awaiting a mark.
pub open spec fn spec_from_balances(s: Seq<(String, String)>) -> Map<Seq<char>, Position>
    decreases s.len(),
{
    if s.len() == 0 {
        Map::empty()
    } else {
        let m = spec_from_balances(s.drop_last());
        let e = s.last();
        if spec_balance_keep(e.1@) {
            m.insert(
                spec_normalize_asset(e.0@),
                Position {
                    amount: spec_parse_fixed(e.1@) as i64,
                    price: if e.0@ == quote_key() {
                        SCALE as i64
                    } else {
                        0i64
                    },
                },
            )
        } else {
            m
        }
    }
}

impl Portfolio {
    /// Builds the opening ledger from an exchange balance snapshot of
    /// (symbol, decimal amount) pairs.  Unparsable, zero or out-of-bounds
    /// amounts are skipped; symbols are normalized; the quote currency
    /// starts priced at one, everything else at zero until marked.
    pub fn from_balances(balances: Vec<(String, String)>) -> (r: Portfolio)
        requires
            balances@.len() <= MAX_ASSETS,
        ensures
            r.wf(),
            r.contents() == spec_from_balances(balances@),
    {
        let zusd = quote_symbol();
        let mut p = Portfolio::new();
        let n = balances.len();
        let mut i: usize = 0;
        proof {
            assert(balances@.take(0) =~= Seq::<(String, String)>::empty());
        }
        while i < n
            invariant
                p.wf(),
                n == balances@.len(),
                n <= MAX_ASSETS,
                0 <= i <= n,
                zusd@ == quote_key(),
                p.contents() == spec_from_balances(balances@.take(i as int)),
                p.entries().len() <= i,
            decreases n - i,
        {
            proof {
                assert(balances@.take(i + 1).drop_last() =~= balances@.take(i as int));
                assert(balances@.take(i + 1).last() == balances@[i as int]);
            }
            let amount = match crate::decimal::parse_fixed(balances[i].1.as_str()) {
                Some(v) => v,
                None => {
                    i += 1;
                    continue ;
                },
            };
            if amount == 0 || amount > AMOUNT_LIMIT as u64 {
                i += 1;
                continue ;
            }
            let price: i64 = if balances[i].0 == zusd {
                SCALE as i64
            } else {
                0
            };
            let key = normalize_asset(balances[i].0.as_str());
            p.set_asset(key, amount as i64, price);
            i += 1;
        }
        proof {
            assert(balances@.take(n as int) =~= balances@);
        }
        p
    }
}

/// Value held in positively-valued positions alone.
pub open spec fn held_value_seq(s: Seq<(String, Position)>) -> int
    decreases s.len(),
{
    if s.len() == 0 {
        0
    } else {
        held_value_seq(s.drop_last()) + if is_held(s.last().1) {
            s.last().1.amount * s.last().1.price
        } else {
            0int
        }
    }
}

/// Sum over the held positions of the equal-weight deviation numerator
/// `t - n * value`.
pub open spec fn deviation_sum_seq(s: Seq<(String, Position)>, t: int, n: int) -> int
    decreases s.len(),
{
    if s.len() == 0 {
        0
    } else {
        deviation_sum_seq(s.drop_last(), t, n) + if is_held(s.last().1) {
            t - n * (s.last().1.amount * s.last().1.price)
        } else {
            0int
        }
    }
}

proof fn lemma_deviation_decompose(s: Seq<(String, Position)>, t: int, n: int)
    ensures
        deviation_sum_seq(s, t, n) == held_count_seq(s) * t - n * held_value_seq(s),
    decreases s.len(),
{
    if s.len() == 0 {
        assert(held_count_seq(s) * t == 0) by (nonlinear_arith)
            requires
                held_count_seq(s) == 0,
        ;
        assert(n * held_value_seq(s) == 0) by (nonlinear_arith)
            requires
                held_value_seq(s) == 0,
        ;
    } else {
        lemma_deviation_decompose(s.drop_last(), t, n);
        let hc = held_count_seq(s.drop_last());
        let hv = held_value_seq(s.drop_last());
        if is_held(s.last().1) {
            let v = s.last().1.amount * s.last().1.price;
            assert((hc + 1) * t == hc * t + t) by (nonlinear_arith);
            assert(n * (hv + v) == n * hv + n * v) by (nonlinear_arith);
        }
    }
}

proof fn lemma_held_value_total(s: Seq<(String, Position)>)
    requires
        forall|i: int| 0 <= i < s.len() ==> #[trigger] s[i].1.amount >= 0,
        forall|i: int| 0 <= i < s.len() ==> #[trigger] s[i].1.price >= 0,
    ensures
        held_value_seq(s) == total_value_seq(s),
    decreases s.len(),
{
    if s.len() > 0 {
        assert(forall|i: int|
            0 <= i < s.len() - 1 ==> #[trigger] s.drop_last()[i].1.amount >= 0
                && s.drop_last()[i].1.price >= 0) by {
            assert(forall|i: int| 0 <= i < s.len() - 1 ==> s.drop_last()[i] == s[i]);
        }
        lemma_held_value_total(s.drop_last());
        let e = s.last().1;
        assert(e.amount >= 0 && e.price >= 0);
        if !is_held(e) {
            assert(e.amount * e.price == 0) by (nonlinear_arith)
                requires
                    e.amount >= 0,
                    e.price >= 0,
                    !(e.amount > 0 && e.price > 0),
            ;
        }
    }
}

/// In a portfolio of nonnegative positions, the held positions carry the
/// whole value, so each held asset's equal-weight target `total / held`
/// covers the total exactly: the deviations `total - held * value` sum to
/// zero over the held assets.  Dividing by `held * total` this says the
/// target allocations of the held assets sum to one.
pub proof fn lemma_target_allocation_sums(p: Portfolio)
    requires
        p.wf(),
        forall|i: int| 0 <= i < p.entries().len() ==> #[trigger] p.entries()[i].1.amount >= 0,
    ensures
        held_value_seq(p.entries()) == p.total_value(),
        deviation_sum_seq(p.entries(), p.total_value(), p.held_count()) == 0,
{
    assert(forall|i: int| 0 <= i < p.entries().len() ==> #[trigger] p.entries()[i].1.price >= 0);
    lemma_held_value_total(p.entries());
    lemma_deviation_decompose(p.entries(), p.total_value(), p.held_count());
}

/// Replacing the entry at `i` adjusts the aggregates by that entry alone.
pub proof fn lemma_totals_update(s: Seq<(String, Position)>, i: int, e: (String, Position))
    requires
        0 <= i < s.len(),
    ensures
        total_value_seq(s.update(i, e)) == total_value_seq(s) - s[i].1.amount * s[i].1.price
            + e.1.amount * e.1.price,
        held_count_seq(s.update(i, e)) == held_count_seq(s) - (
        if is_held(s[i].1) {
            1int
        } else {
            0int
        }) + (
        if is_held(e.1) {
            1int
        } else {
            0int
        }),
    decreases s.len(),
{
    let t = s.update(i, e);
    if i == s.len() - 1 {
        assert(t.drop_last() =~= s.drop_last());
        assert(t.last() == e);
    } else {
        assert(t.drop_last() =~= s.drop_last().update(i, e));
        assert(s.drop_last()[i] == s[i]);
        lemma_totals_update(s.drop_last(), i, e);
        assert(t.last() == s.last());
    }
}

} // verus!
