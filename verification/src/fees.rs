//! What a taker is charged, and which fee schedule may charge it.
use vstd::prelude::*;
use vstd::string::*;

use crate::config::CoreConfig;
use crate::decimal::Decimal;
use crate::text;

verus! {

/// The point of the price range at which a fee is quoted unless asked otherwise, as a mantissa
/// with one decimal place.
pub const QUOTED_PRICE_TENTHS: i64 = 5;

/// The parameters of a fee curve, under a name.
#[derive(Debug)]
pub struct FeeSchedule {
    pub name: String,
    pub rate: Decimal,
    pub exponent: u32,
}

/// The parameters that are pinned for the name of a schedule.
#[derive(Clone, Copy, Debug)]
pub struct PinnedFee {
    pub rate: Decimal,
    pub exponent: u32,
}

/// A quote of the fee schedule.
#[derive(Debug)]
pub struct FeeQuote {
    /// The schedule's name.
    pub model: String,
    pub rate: Decimal,
    pub exponent: u32,
    /// The price that is quoted.
    pub price: Decimal,
    /// What a taker pays per share at the price.
    pub fee_per_share: Decimal,
    /// What a taker pays, in percent of the price.
    pub fee_pct_of_price: Decimal,
    /// What a maker pays per share.
    pub maker_fee_per_share: Decimal,
    /// Whether the schedule is the one that is pinned for its name.
    pub model_matches: bool,
}

impl Clone for FeeSchedule {
    fn clone(&self) -> (r: Self)
        ensures
            r.same_as(*self),
    {
        FeeSchedule { name: self.name.clone(), rate: self.rate, exponent: self.exponent }
    }
}

impl FeeSchedule {
    /// Whether two schedules are one: the same name and the same curve.
    pub open spec fn same_as(self, other: FeeSchedule) -> bool {
        self.name@ == other.name@ && self.rate@ == other.rate@ && self.exponent == other.exponent
    }

    /// Whether two schedules are one.
    pub fn is_same(&self, other: &FeeSchedule) -> (r: bool)
        ensures
            r == self.same_as(*other),
    {
        text::same_text(self.name.as_str(), other.name.as_str()) && self.rate == other.rate
            && self.exponent == other.exponent
    }
}

/// One hundred.
pub open spec fn hundred() -> Decimal {
    Decimal::of((100, 0))
}

/// Writes one hundred.
pub fn one_hundred() -> (r: Decimal)
    ensures
        r == hundred(),
        r@ > 0,
{
    proof {
        crate::decimal::lemma_pow10_positive(28);
    }
    Decimal::new(100, 0)
}

/// What a part of an amount is, in percent.
pub open spec fn pct_of(pct: Decimal, amount: Decimal) -> Decimal {
    pct.spec_over(hundred()).spec_times(amount)
}

/// A part of an amount, in percent, stays in range.
pub open spec fn pct_of_ok(pct: Decimal, amount: Decimal) -> bool {
    pct.over_ok(hundred()) && pct.spec_over(hundred()).times_ok(amount)
}

/// No percent of an amount is nothing.
pub proof fn lemma_no_percent(amount: Decimal)
    ensures
        pct_of(Decimal::spec_zero(), amount) == Decimal::spec_zero(),
{
    crate::decimal::lemma_parts_of((0, 0));
}

/// Takes a part of an amount, in percent.
pub fn percent_of(pct: Decimal, amount: Decimal) -> (r: Decimal)
    requires
        pct_of_ok(pct, amount),
    ensures
        r == pct_of(pct, amount),
        pct == Decimal::spec_zero() ==> r@ == 0,
{
    proof {
        lemma_no_percent(amount);
        crate::decimal::lemma_zero();
    }
    pct.over(one_hundred()).times(amount)
}

/// What is charged per share at a price, for the percentage that the schedule states there.
pub fn charged_per_share(fee_pct: Decimal, price: Decimal) -> (r: Decimal)
    requires
        pct_of_ok(fee_pct, price),
    ensures
        r == pct_of(fee_pct, price),
{
    percent_of(fee_pct, price)
}

/// Whether a schedule is the one that is pinned for its name. A name without a pin is not vouched
/// for. The parameters are held against the pin, and not what they give at one price: two curves
/// can cross there.
pub open spec fn reproduces(schedule: FeeSchedule, pin: Option<PinnedFee>) -> bool {
    match pin {
        Some(p) => schedule.rate@ == p.rate@ && schedule.exponent == p.exponent,
        None => false,
    }
}

/// Whether a schedule is the one that is pinned for its name.
pub fn schedule_reproduces_pin(schedule: &FeeSchedule, pin: Option<PinnedFee>) -> (r: bool)
    ensures
        r == reproduces(*schedule, pin),
{
    match pin {
        Some(p) => schedule.rate == p.rate && schedule.exponent == p.exponent,
        None => false,
    }
}

/// The price that a quote is for: the widest point of the curve unless one is asked for.
pub open spec fn quote_price(price: Option<Decimal>) -> Decimal {
    match price {
        Some(p) => p,
        None => Decimal::of((QUOTED_PRICE_TENTHS as i128, 1)),
    }
}

/// Picks the price that a quote is for.
pub fn quoted_price(price: Option<Decimal>) -> (r: Decimal)
    ensures
        r == quote_price(price),
{
    match price {
        Some(p) => p,
        None => Decimal::new(QUOTED_PRICE_TENTHS, 1),
    }
}

/// A quote is that of a schedule at a price, where the schedule charges `fee_pct` percent.
pub open spec fn quotes(
    q: FeeQuote,
    schedule: FeeSchedule,
    pin: Option<PinnedFee>,
    price: Option<Decimal>,
    fee_pct: Decimal,
) -> bool {
    &&& q.model@ == schedule.name@
    &&& q.rate == schedule.rate
    &&& q.exponent == schedule.exponent
    &&& q.price == quote_price(price)
    &&& q.fee_per_share == pct_of(fee_pct, quote_price(price))
    &&& q.fee_pct_of_price == fee_pct
    &&& q.maker_fee_per_share == Decimal::spec_zero()
    &&& q.model_matches == reproduces(schedule, pin)
}

/// Quotes a schedule at a price, where the schedule charges `fee_pct` percent there. A maker is
/// never charged.
pub fn fee_quote_at(
    schedule: &FeeSchedule,
    pin: Option<PinnedFee>,
    price: Option<Decimal>,
    fee_pct: Decimal,
) -> (r: FeeQuote)
    requires
        pct_of_ok(fee_pct, quote_price(price)),
    ensures
        quotes(r, *schedule, pin, price, fee_pct),
{
    let at = quoted_price(price);
    FeeQuote {
        model: schedule.name.clone(),
        rate: schedule.rate,
        exponent: schedule.exponent,
        price: at,
        fee_per_share: charged_per_share(fee_pct, at),
        fee_pct_of_price: fee_pct,
        maker_fee_per_share: Decimal::zero(),
        model_matches: schedule_reproduces_pin(schedule, pin),
    }
}

/// Whether fills may be charged under a schedule: the shipped one, or any in a replay.
pub open spec fn chargeable(replay: bool, schedule: FeeSchedule, shipped: FeeSchedule) -> bool {
    replay || schedule.same_as(shipped)
}

/// Whether fills may be charged under a schedule.
pub fn may_charge(config: &CoreConfig, schedule: &FeeSchedule, shipped: &FeeSchedule) -> (r: bool)
    ensures
        r == chargeable(config.fee_schedule_replay, *schedule, *shipped),
{
    config.fee_schedule_replay || schedule.is_same(shipped)
}

/// What a fill costs: a taker pays the schedule's percentage of the notional, a maker nothing.
pub open spec fn fee_of(maker: bool, fee_pct: Decimal, notional: Decimal) -> Decimal {
    pct_of(
        if maker {
            Decimal::spec_zero()
        } else {
            fee_pct
        },
        notional,
    )
}

/// A quote that vouches for a schedule vouches for its whole curve: two schedules that one pin
/// vouches for are the same curve.
pub proof fn law_a_pin_vouches_for_one_curve(
    a: FeeSchedule,
    b: FeeSchedule,
    pin: Option<PinnedFee>,
)
    requires
        reproduces(a, pin),
        reproduces(b, pin),
    ensures
        a.rate@ == b.rate@,
        a.exponent == b.exponent,
{
}

/// Outside a replay only the shipped schedule is ever charged.
pub proof fn law_only_a_replay_charges_another_schedule(schedule: FeeSchedule, shipped: FeeSchedule)
    requires
        !schedule.same_as(shipped),
    ensures
        !chargeable(false, schedule, shipped),
        chargeable(true, schedule, shipped),
{
}

// ---------------------------------------------------------------------------------------------
// Asking beforehand

/// Whether a part of an amount, in percent, stays in range.
pub fn percent_fits(pct: Decimal, amount: Decimal) -> (r: bool)
    ensures
        r == pct_of_ok(pct, amount),
{
    let h = one_hundred();
    pct.can_over(h) && pct.over(h).can_times(amount)
}

/// What is charged per share at a price, where it stays in range.
pub fn checked_charged_per_share(fee_pct: Decimal, price: Decimal) -> (r: Option<Decimal>)
    ensures
        match r {
            Some(d) => pct_of_ok(fee_pct, price) && d == pct_of(fee_pct, price),
            None => !pct_of_ok(fee_pct, price),
        },
{
    if percent_fits(fee_pct, price) {
        Some(charged_per_share(fee_pct, price))
    } else {
        None
    }
}

/// Quotes a schedule at a price, where what it charges stays in range.
pub fn checked_fee_quote_at(
    schedule: &FeeSchedule,
    pin: Option<PinnedFee>,
    price: Option<Decimal>,
    fee_pct: Decimal,
) -> (r: Option<FeeQuote>)
    ensures
        match r {
            Some(q) => pct_of_ok(fee_pct, quote_price(price)) && quotes(
                q,
                *schedule,
                pin,
                price,
                fee_pct,
            ),
            None => !pct_of_ok(fee_pct, quote_price(price)),
        },
{
    if percent_fits(fee_pct, quoted_price(price)) {
        Some(fee_quote_at(schedule, pin, price, fee_pct))
    } else {
        None
    }
}

} // verus!
