//! What a fill comes to: its fee, where its shares go, what a close of a position counts for, and
//! which trades made outside the kernel are folded in.
use vstd::prelude::*;

use crate::decimal;
use crate::decimal::Decimal;
use crate::exit_reasons;
use crate::exits;
use crate::fees;
use crate::fees::{FeeQuote, FeeSchedule, PinnedFee};
use crate::fills;
use crate::fills::{
    AfterExitModel, BreakerVerdict, CashMoveModel, EntryTarget, ExitLeft, ExternalSell,
    FillDeltaModel, Projection, VenueTradeModel,
};
use crate::lifecycle::DailyTrip;
use crate::model::{EventModel, ExitReason, OpenPosition, OrderRole, Side, TrackedOrderModel};
use crate::service;
use crate::service::{ClosedPosition, CoreModel};

verus! {

// ---------------------------------------------------------------------------------------------
// Fees and reservations

/// One hundred is a hundred times one.
pub proof fn law_one_hundred_is_a_hundred()
    ensures
        fees::hundred()@ == 100 * decimal::one_unit(),
        fees::hundred().parts() == (100i128, 0u32),
{
    decimal::lemma_parts_of((100, 0));
    reveal_with_fuel(decimal::pow10, 30);
}

/// A taker pays the schedule's percentage of what it traded, and of nothing else; a maker and a fill
/// that is taken back pay nothing, whatever the schedule says.
pub proof fn law_a_taker_pays_its_percentage(d: FillDeltaModel, fee_pct: Decimal)
    ensures
        d.delta@ > 0 && d.role == OrderRole::Taker ==> fills::fill_fee(d, fee_pct)
            == fee_pct.spec_over(Decimal::of((100, 0))).spec_times(d.price.spec_times(d.delta)),
        d.role == OrderRole::Maker ==> fills::fill_fee(d, fee_pct)@ == 0,
        d.delta@ <= 0 ==> fills::fill_fee(d, fee_pct)@ == 0,
{
    fees::lemma_no_percent(fills::fill_notional(d));
    decimal::lemma_zero();
}

/// A buy pays for its shares at the price that it got and releases what its limit had reserved for
/// them, for its own order; a sell reserves nothing, so it releases nothing.
pub proof fn law_a_buy_releases_what_its_limit_reserved(d: FillDeltaModel, fee_pct: Decimal)
    requires
        d.delta@ > 0,
        d.price.well_formed(),
        d.limit_price.well_formed(),
        d.delta.well_formed(),
        d.price.times_plain(d.delta),
        d.limit_price.times_plain(d.delta),
    ensures
        d.side == Side::Buy ==> {
            let moves = fills::cash_moves(d, fee_pct);
            &&& moves.len() == 2
            &&& moves[0] matches CashMoveModel::Buy { order_id, paid, released }
            &&& order_id == d.order_id
            &&& paid@ * decimal::one_unit() == d.price@ * d.delta@
            &&& released@ * decimal::one_unit() == d.limit_price@ * d.delta@
            &&& moves[1] matches CashMoveModel::Fee { fee_usd }
            &&& fee_usd == fills::fill_fee(d, fee_pct)
        },
        d.side == Side::Sell ==> {
            let moves = fills::cash_moves(d, fee_pct);
            &&& moves.len() == 1
            &&& moves[0] matches CashMoveModel::Sell { received, fee_usd }
            &&& received@ * decimal::one_unit() == d.price@ * d.delta@
            &&& fee_usd == fills::fill_fee(d, fee_pct)
        },
{
    decimal::lemma_times_plain(d.price, d.delta);
    decimal::lemma_times_plain(d.limit_price, d.delta);
}

/// What stays reserved for a working order is what is left of it at its limit; an order that has ended,
/// or that nobody knows, has nothing reserved.
pub proof fn law_only_a_working_order_stays_reserved(o: TrackedOrderModel, remaining: Decimal)
    requires
        o.price.well_formed(),
        remaining.well_formed(),
        o.price.times_plain(remaining),
    ensures
        o.live ==> fills::reservation(Some(o), remaining)@ * decimal::one_unit() == o.price@
            * remaining@,
        !o.live ==> fills::reservation(Some(o), remaining)@ == 0,
        fills::reservation(None, remaining)@ == 0,
{
    decimal::lemma_times_plain(o.price, remaining);
    decimal::lemma_zero();
}

/// A quote is that of the schedule which it names: the schedule's own parameters, the percentage of
/// the quoted price, and nothing for a maker; without a price it is for one half.
pub proof fn law_a_quote_is_of_its_schedule(
    q: FeeQuote,
    schedule: FeeSchedule,
    pin: Option<PinnedFee>,
    price: Option<Decimal>,
    fee_pct: Decimal,
)
    requires
        fees::quotes(q, schedule, pin, price, fee_pct),
    ensures
        q.model@ == schedule.name@,
        q.rate == schedule.rate,
        q.exponent == schedule.exponent,
        price matches Some(p) ==> q.price == p,
        price is None ==> 2 * q.price@ == decimal::one_unit(),
        q.fee_per_share == fee_pct.spec_over(Decimal::of((100, 0))).spec_times(q.price),
        q.fee_pct_of_price == fee_pct,
        q.maker_fee_per_share@ == 0,
        q.model_matches <==> (pin matches Some(p) && schedule.rate@ == p.rate@ && schedule.exponent
            == p.exponent),
{
    decimal::lemma_zero();
    decimal::lemma_parts_of((5, 1));
    reveal_with_fuel(decimal::pow10, 30);
}

/// Outside a replay a schedule is charged just where it is the shipped one: by name, rate and
/// exponent.
pub proof fn law_the_shipped_schedule_is_charged(schedule: FeeSchedule, shipped: FeeSchedule)
    ensures
        fees::chargeable(true, schedule, shipped),
        fees::chargeable(false, schedule, shipped) <==> schedule.name@ == shipped.name@
            && schedule.rate@ == shipped.rate@ && schedule.exponent == shipped.exponent,
{
}

// ---------------------------------------------------------------------------------------------
// Where the shares go

/// A position opened in a round ends with it: the rounds follow each other without a gap, and every
/// position of a slot ends when the next one begins. Without a slot it ends a round from now.
pub proof fn law_a_position_ends_with_its_round(slot: i64, duration_sec: i64, now_ms: i64, other_ms: i64)
    requires
        slot < i64::MAX,
    ensures
        slot > 0 ==> fills::round_end(slot, duration_sec, now_ms) == fills::round_end(
            slot,
            duration_sec,
            other_ms,
        ),
        slot > 0 ==> fills::round_end((slot + 1) as i64, duration_sec, now_ms) - fills::round_end(
            slot,
            duration_sec,
            now_ms,
        ) == duration_sec * 1000,
        slot == 1 ==> fills::round_end(slot, duration_sec, now_ms) == 2 * (duration_sec * 1000),
        slot <= 0 ==> fills::round_end(slot, duration_sec, now_ms) - now_ms == duration_sec * 1000,
{
    let s = slot as int;
    let d = duration_sec as int;
    assert((s + 2) * d * 1000 - (s + 1) * d * 1000 == d * 1000) by (nonlinear_arith);
    assert((1 + 1) * d * 1000 == 2 * (d * 1000)) by (nonlinear_arith);
}

/// A fill goes where its token is held: a buy into the first position on its token, or into a new one
/// where there is none, made of the fill; a sell out of the first position on its token.
pub proof fn law_a_fill_goes_where_its_token_is_held(
    r: Projection,
    m: CoreModel,
    d: FillDeltaModel,
    positions: Seq<OpenPosition>,
    now_ms: i64,
)
    requires
        fills::projects(r, m, d, positions, now_ms),
    ensures
        match r {
            Projection::Enters { target: EntryTarget::Held { position_id } } => {
                &&& d.side == Side::Buy
                &&& exists|i: int|
                    0 <= i < positions.len() && (#[trigger] positions[i]).token_id@ == d.token_id
                        && positions[i].id@ == position_id@ && forall|j: int|
                        0 <= j < i ==> (#[trigger] positions[j]).token_id@ != d.token_id
            },
            Projection::Enters { target: EntryTarget::New { params } } => {
                &&& d.side == Side::Buy
                &&& forall|j: int|
                    0 <= j < positions.len() ==> (#[trigger] positions[j]).token_id@ != d.token_id
                &&& params@.token_id == d.token_id
                &&& params@.condition_id == d.condition_id
                &&& params@.strategy == d.strategy
                &&& params@.asset == d.asset
                &&& params@.direction == exits::direction_named(d.direction)
                &&& params@.entry_price == d.price
                &&& params@.was_maker == (d.role == OrderRole::Maker)
                &&& params@.target_exit_price is None
                &&& params@.expires_at_ms == fills::round_end(
                    d.round_slot,
                    m.config.round_duration_sec,
                    now_ms,
                ) as i64
            },
            Projection::Sells { from } => {
                &&& d.side == Side::Sell
                &&& from.token_id@ == d.token_id
                &&& exists|i: int|
                    0 <= i < positions.len() && #[trigger] positions[i] == from && forall|j: int|
                        0 <= j < i ==> (#[trigger] positions[j]).token_id@ != d.token_id
            },
            Projection::Stray { after } => {
                &&& d.side == Side::Sell
                &&& forall|j: int|
                    0 <= j < positions.len() ==> (#[trigger] positions[j]).token_id@ != d.token_id
                &&& d.delta@ >= 0 ==> after@ is Nothing
                &&& d.delta@ < 0 ==> after@ is Unwinds || after@ is Fails
            },
        },
{
    exits::lemma_position_on(positions, d.token_id);
}

/// An exit fill closes its position just where nothing of it is left or nothing that could be sold; it
/// is recorded with the reason that the close was submitted with, and as made by hand where there is
/// none, and as what the fill was.
pub proof fn law_a_position_closes_when_nothing_is_left(
    m: CoreModel,
    d: FillDeltaModel,
    left: ExitLeft,
)
    ensures
        fills::after_exit_of(m, d, Some(left)) is Closes <==> left.shares@ <= 0 || left.sellable@
            == 0,
        fills::after_exit_of(m, d, Some(left)) matches AfterExitModel::Closes { reason, was_maker }
            ==> was_maker == (d.role == OrderRole::Maker) && reason == match exit_reasons::reason_of(
            m.exit_reasons.entries,
            d.token_id,
        ) {
            Some(noted) => noted,
            None => ExitReason::Manual,
        },
        !(fills::after_exit_of(m, d, Some(left)) is Closes) ==> fills::after_exit_of(
            m,
            d,
            Some(left),
        ) is Saved,
        d.delta@ < 0 ==> fills::after_exit_of(m, d, None) is Fails,
        d.delta@ >= 0 ==> fills::after_exit_of(m, d, None) is Nothing,
{
}

/// A sell that is taken back after its position closed takes that very close back: the oldest one filed
/// under the trade, once, and no other close is touched. A trade that no close is filed under fails.
pub proof fn law_a_sell_taken_back_undoes_its_own_close(m: CoreModel, d: FillDeltaModel, i: int)
    requires
        d.delta@ < 0,
    ensures
        0 <= i < m.close_credentials.len() && m.close_credentials[i].trade_id == d.trade_id && (
        forall|j: int|
            0 <= j < i ==> (#[trigger] m.close_credentials[j]).trade_id != d.trade_id) ==> {
            &&& fills::after_stray_exit(m, d) == (AfterExitModel::Unwinds {
                credential: m.close_credentials[i],
            })
            &&& fills::stray_exit_taken(m, d).close_credentials == m.close_credentials.remove(i)
        },
        (forall|j: int|
            0 <= j < m.close_credentials.len() ==> (#[trigger] m.close_credentials[j]).trade_id
                != d.trade_id) ==> fills::after_stray_exit(m, d) is Fails
            && fills::stray_exit_taken(m, d) == m,
        fills::stray_exit_taken(m, d) == (CoreModel {
            close_credentials: fills::stray_exit_taken(m, d).close_credentials,
            ..m
        }),
{
    fills::lemma_credential_of(m.close_credentials, d.trade_id);
}

// ---------------------------------------------------------------------------------------------
// What a close counts for

/// A closed position paid for both its legs: each its own percentage of its own price, for the shares
/// that were closed.
pub proof fn law_a_close_pays_for_both_legs(c: ClosedPosition)
    ensures
        ({
            let entry = c.entry_fee_pct.spec_over(Decimal::of((100, 0))).spec_times(
                c.entry_price,
            ).spec_times(c.shares);
            let exit = c.exit_fee_pct.spec_over(Decimal::of((100, 0))).spec_times(
                c.exit_price,
            ).spec_times(c.shares);
            &&& fills::trade_fees(c) == entry.spec_plus(exit)
            &&& entry.well_formed() && exit.well_formed() && entry.plus_plain(exit)
                ==> fills::trade_fees(c)@ == entry@ + exit@
        }),
{
    let entry = c.entry_fee_pct.spec_over(Decimal::of((100, 0))).spec_times(
        c.entry_price,
    ).spec_times(c.shares);
    let exit = c.exit_fee_pct.spec_over(Decimal::of((100, 0))).spec_times(c.exit_price).spec_times(
        c.shares,
    );
    if entry.well_formed() && exit.well_formed() && entry.plus_plain(exit) {
        decimal::lemma_plus_plain(entry, exit);
    }
}

/// A close counts for its own strategy: one trade more, a win where it lost nothing and a loss where it
/// did, its profit added to the profit and its fees to the fees. Every other strategy stands as it
/// stood.
pub proof fn law_a_close_counts_for_its_strategy(m: CoreModel, c: ClosedPosition, other: Seq<char>)
    requires
        fills::close_ok(service::accounting_of(m, c.strategy@), c),
        other != c.strategy@,
    ensures
        ({
            let before = service::accounting_of(m, c.strategy@);
            let after = service::accounting_of(fills::close_booked(m, c), c.strategy@);
            &&& after.closed_trades == before.closed_trades + 1
            &&& c.net_pnl_usd@ >= 0 ==> after.wins == before.wins + 1 && after.losses
                == before.losses
            &&& c.net_pnl_usd@ < 0 ==> after.losses == before.losses + 1 && after.wins
                == before.wins
            &&& fills::comes_back(before.net_pnl_usd, c.net_pnl_usd) ==> after.net_pnl_usd@
                == before.net_pnl_usd@ + c.net_pnl_usd@
            &&& fills::comes_back(before.fees_usd, fills::trade_fees(c)) ==> after.fees_usd@
                == before.fees_usd@ + fills::trade_fees(c)@
            &&& after.placed == before.placed
            &&& after.rejected == before.rejected
        }),
        service::accounting_of(fills::close_booked(m, c), other) == service::accounting_of(m, other),
{
    let before = service::accounting_of(m, c.strategy@);
    if fills::comes_back(before.net_pnl_usd, c.net_pnl_usd) {
        decimal::lemma_plus_plain(before.net_pnl_usd, c.net_pnl_usd);
    }
    if fills::comes_back(before.fees_usd, fills::trade_fees(c)) {
        decimal::lemma_plus_plain(before.fees_usd, fills::trade_fees(c));
    }
}

/// A close is told first of all, as it was: the position, its profit and the day's.
pub proof fn law_a_close_is_told_as_it_was(
    m: CoreModel,
    c: ClosedPosition,
    breaker: BreakerVerdict,
    daily_pnl_usd: Decimal,
    trip: Option<DailyTrip>,
)
    ensures
        ({
            let told = fills::close_events(m, c, breaker, daily_pnl_usd, trip);
            &&& told.len() == 1 + (if breaker.tripped {
                1int
            } else {
                0
            }) + (if trip is Some {
                1int
            } else {
                0
            })
            &&& told[0] matches EventModel::PositionClosed {
                id,
                asset,
                direction,
                reason,
                strategy,
                token_id,
                condition_id,
                net_pnl_usd,
                net_pnl_pct,
                daily_pnl_usd: day,
            }
            &&& id == c.id@
            &&& asset == c.asset@
            &&& exits::direction_named(direction) == c.direction
            &&& reason == c.exit_reason.spec_name()
            &&& strategy == c.strategy@
            &&& token_id == c.token_id@
            &&& condition_id == c.condition_id@
            &&& net_pnl_usd == c.net_pnl_usd
            &&& net_pnl_pct == c.net_pnl_pct
            &&& day == daily_pnl_usd
        }),
{
    exits::law_directions_are_read_back(c.direction);
}

// ---------------------------------------------------------------------------------------------
// Trades made outside the kernel

/// The trades to fold in are those that are newer than the mark, in their order, and all of them.
pub proof fn law_a_newer_trade_is_fresh(trades: Seq<VenueTradeModel>, mark_ms: i64)
    ensures
        forall|i: int|
            0 <= i < trades.len() && (#[trigger] trades[i]).ts_ms > mark_ms ==> fills::fresh(
                trades,
                mark_ms,
            ).contains(trades[i]),
        forall|i: int|
            0 <= i < fills::fresh(trades, mark_ms).len() ==> (#[trigger] fills::fresh(
                trades,
                mark_ms,
            )[i]).ts_ms > mark_ms && trades.contains(fills::fresh(trades, mark_ms)[i]),
        fills::fresh(trades, mark_ms).len() <= trades.len(),
    decreases trades.len(),
{
    if trades.len() > 0 {
        let front = trades.drop_last();
        law_a_newer_trade_is_fresh(front, mark_ms);
        let rest = fills::fresh(front, mark_ms);
        let all = fills::fresh(trades, mark_ms);
        assert forall|i: int| 0 <= i < trades.len() && (#[trigger] trades[i]).ts_ms > mark_ms implies all.contains(
            trades[i],
        ) by {
            if i < front.len() {
                assert(front[i] == trades[i]);
                assert(rest.contains(front[i]));
                let j = choose|j: int| 0 <= j < rest.len() && rest[j] == front[i];
                assert(all[j] == rest[j]);
            } else {
                assert(all[all.len() - 1] == trades[i]);
            }
        }
        assert forall|i: int| 0 <= i < all.len() implies (#[trigger] all[i]).ts_ms > mark_ms
            && trades.contains(all[i]) by {
            if i < rest.len() {
                assert(all[i] == rest[i]);
                assert(front.contains(rest[i]));
                let j = choose|j: int| 0 <= j < front.len() && front[j] == rest[i];
                assert(trades[j] == front[j]);
            } else {
                assert(trades[trades.len() - 1] == all[i]);
            }
        }
    }
}

/// The mark moves to the newest trade that was folded in, and never back: it is at least the old one
/// and every trade, and it is one of them.
pub proof fn law_the_mark_is_the_newest_trade(trades: Seq<VenueTradeModel>, mark_ms: i64)
    ensures
        fills::newest(trades, mark_ms) >= mark_ms,
        forall|i: int|
            0 <= i < trades.len() ==> (#[trigger] trades[i]).ts_ms <= fills::newest(trades, mark_ms),
        fills::newest(trades, mark_ms) == mark_ms || exists|i: int|
            0 <= i < trades.len() && (#[trigger] trades[i]).ts_ms == fills::newest(trades, mark_ms),
    decreases trades.len(),
{
    if trades.len() > 0 {
        let front = trades.drop_last();
        law_the_mark_is_the_newest_trade(front, mark_ms);
        assert(trades[trades.len() - 1] == trades.last());
        assert forall|i: int| 0 <= i < trades.len() implies (#[trigger] trades[i]).ts_ms
            <= fills::newest(trades, mark_ms) by {
            if i < front.len() {
                assert(front[i] == trades[i]);
            }
        }
        if fills::newest(front, mark_ms) != mark_ms {
            let i = choose|i: int|
                0 <= i < front.len() && (#[trigger] front[i]).ts_ms == fills::newest(front, mark_ms);
            assert(trades[i] == front[i]);
        }
    }
}

/// A sell made outside the kernel brings cash for what the position holds and for no more: the smaller
/// of what was sold and what is held, at the trade's price, less the percentage that a taker pays.
pub proof fn law_an_outside_sell_brings_cash_for_what_is_held(
    x: ExternalSell,
    t: VenueTradeModel,
    positions: Seq<OpenPosition>,
    fee_pct: Decimal,
)
    requires
        fills::folds_in(t, positions),
        fills::folded_as(x, t, positions, fee_pct),
    ensures
        t.side == Side::Sell,
        exists|i: int|
            0 <= i < positions.len() && (#[trigger] positions[i]).token_id@ == t.token_id
                && positions[i].id@ == x.position_id@ && x.size@ == (if t.size@
                < positions[i].shares@ {
                t.size@
            } else {
                positions[i].shares@
            }) && (forall|j: int| 0 <= j < i ==> (#[trigger] positions[j]).token_id@ != t.token_id),
        x.size@ > 0,
        t.price.well_formed() && x.size.well_formed() && t.price.times_plain(x.size) ==> x.notional@
            * decimal::one_unit() == t.price@ * x.size@,
        t.maker == Some(true) ==> x.fee_usd@ == 0 && x.role == OrderRole::Maker,
        t.maker != Some(true) ==> x.role == OrderRole::Taker && x.fee_usd == fee_pct.spec_over(
            Decimal::of((100, 0)),
        ).spec_times(x.notional),
{
    exits::lemma_position_on(positions, t.token_id);
    decimal::lemma_zero();
    if t.price.well_formed() && x.size.well_formed() && t.price.times_plain(x.size) {
        decimal::lemma_times_plain(t.price, x.size);
    }
}

/// A trade made outside the kernel is folded in just where it sells something of a token that is held;
/// a buy never is.
pub proof fn law_only_a_sell_of_what_is_held_is_folded_in(
    t: VenueTradeModel,
    positions: Seq<OpenPosition>,
)
    ensures
        t.side == Side::Buy ==> !fills::folds_in(t, positions),
        (forall|j: int|
            0 <= j < positions.len() ==> (#[trigger] positions[j]).token_id@ != t.token_id)
            ==> !fills::folds_in(t, positions),
        t.side == Side::Sell && t.size@ > 0 && (exists|j: int|
            0 <= j < positions.len() && (#[trigger] positions[j]).token_id@ == t.token_id) && (
        forall|j: int| 0 <= j < positions.len() ==> (#[trigger] positions[j]).shares@ > 0)
            ==> fills::folds_in(t, positions),
{
    exits::lemma_position_on(positions, t.token_id);
}

} // verus!
