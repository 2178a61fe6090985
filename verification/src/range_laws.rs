//! What is in range: numbers that need no rounding never leave it, so that nothing ordinary is turned
//! away for want of room.
use vstd::prelude::*;

use crate::audit;
use crate::cash_laws;
use crate::decimal;
use crate::decimal::Decimal;
use crate::entries;
use crate::exits;
use crate::fees;
use crate::fills;
use crate::fills::{FillDeltaModel, VenueTradeModel};
use crate::limits;
use crate::limits::EffectiveSizing;
use crate::config::RiskConfig;
use crate::model::{MarketResolution, OpenPosition, OrderRequestModel, OrderRole, TrackedOrderModel};
use crate::service::{ClosedPosition, CoreModel, StrategyAccountingModel};
use crate::settlement;
use crate::settlement::{BookModel, ClaimModel, LineModel};
use crate::settling;
use crate::str_map;
use crate::submission;
use crate::submission::Replies;

verus! {

/// A sum, a difference or a product that needs no rounding is in range.
pub proof fn law_what_needs_no_rounding_is_in_range(a: Decimal, b: Decimal)
    requires
        a.well_formed(),
        b.well_formed(),
    ensures
        a.plus_plain(b) ==> a.plus_ok(b),
        a.minus_plain(b) ==> a.minus_ok(b),
        a.times_plain(b) ==> a.times_ok(b),
{
    if a.plus_plain(b) {
        decimal::lemma_plus_plain(a, b);
    }
    if a.minus_plain(b) {
        decimal::lemma_minus_plain(a, b);
    }
    if a.times_plain(b) {
        decimal::lemma_times_plain(a, b);
    }
}

/// A list whose sum needs no rounding has a sum.
pub proof fn law_a_list_that_needs_no_rounding_has_a_sum(s: Seq<Decimal>)
    requires
        decimal::total_plain(s),
    ensures
        decimal::total_ok(s),
{
    decimal::lemma_total_plain(s);
}

/// A part of a hundred of any number is in range, and so is a part of an amount where the part is zero.
pub proof fn law_a_hundredth_is_in_range(pct: Decimal, amount: Decimal)
    requires
        pct.well_formed(),
    ensures
        pct.over_ok(fees::hundred()),
        fees::pct_of_ok(Decimal::spec_zero(), amount),
{
    crate::fill_laws::law_one_hundred_is_a_hundred();
    decimal::lemma_in_range(pct);
    decimal::lemma_zero();
    fees::lemma_no_percent(amount);
    decimal::lemma_parts_of((0, 0));
    decimal::lemma_parts_of((100, 0));
    let q = Decimal::spec_zero().spec_over(fees::hundred());
    assert(q == Decimal::of((0, 0)));
    let a = amount@;
    assert(0 * a == 0);
}

/// The exposure of an entry that needs no rounding is in range, against every cap.
pub proof fn law_a_plain_exposure_is_in_range(
    m: CoreModel,
    q: OrderRequestModel,
    positions: Seq<OpenPosition>,
)
    requires
        limits::plain_exposure(limits::costs(positions), q),
        limits::plain_exposure(limits::costs(limits::held_by(positions, q.strategy)), q),
    ensures
        limits::exposure_ok(limits::costs(positions), q),
        limits::exposure_ok(limits::costs(limits::held_by(positions, q.strategy)), q),
        entries::limits_ok(m, q, positions),
{
    let all = limits::costs(positions);
    let own = limits::costs(limits::held_by(positions, q.strategy));
    decimal::lemma_total_plain(all);
    decimal::lemma_total_plain(own);
    decimal::lemma_times_plain(q.price, q.size);
    decimal::lemma_plus_plain(decimal::total(all), q.price.spec_times(q.size));
    decimal::lemma_plus_plain(decimal::total(own), q.price.spec_times(q.size));
}

proof fn lemma_claims_in_range(s: Seq<(Seq<char>, ClaimModel)>)
    requires
        cash_laws::plain_claims(s),
    ensures
        settlement::payouts_sum_ok(s),
        settlement::payouts_sum(s).well_formed(),
    decreases s.len(),
{
    if s.len() == 0 {
        decimal::lemma_parts_of((0, 0));
    } else {
        lemma_claims_in_range(s.drop_last());
        decimal::lemma_plus_plain(settlement::payouts_sum(s.drop_last()), s.last().1.payout_usd);
    }
}

/// An audit of books that need no rounding is never turned away: what the positions moved, what the
/// working buys commit and what the claims owe is in range.
pub proof fn law_plain_books_can_be_audited(
    m: CoreModel,
    orders: Seq<TrackedOrderModel>,
    positions: Seq<OpenPosition>,
)
    requires
        cash_laws::plain_sums(positions),
        cash_laws::plain_claims(str_map::ordered(m.settlement.claims)),
        forall|i: int|
            0 <= i < audit::live_buys(orders).len() ==> cash_laws::plain_commitment(
                #[trigger] audit::live_buys(orders)[i],
            ),
        decimal::total_plain(audit::commitments(audit::live_buys(orders))),
    ensures
        audit::audit_sums_ok(m, orders, positions),
        audit::commitments_ok(audit::live_buys(orders)),
        settlement::payouts_sum_ok(str_map::ordered(m.settlement.claims)),
{
    lemma_claims_in_range(str_map::ordered(m.settlement.claims));
    decimal::lemma_total_plain(audit::outlays(positions));
    decimal::lemma_total_plain(audit::takings(positions));
    decimal::lemma_total_plain(audit::commitments(audit::live_buys(orders)));
    assert forall|i: int| 0 <= i < positions.len() implies (
    #[trigger] positions[i]).flows.entry_cost_usd.plus_ok(positions[i].flows.entry_fee_usd)
        && positions[i].flows.proceeds_usd.minus_ok(positions[i].flows.exit_fee_usd) by {
        let f = positions[i].flows;
        assert(cash_laws::plain_flows(positions[i]));
        decimal::lemma_plus_plain(f.entry_cost_usd, f.entry_fee_usd);
        decimal::lemma_minus_plain(f.proceeds_usd, f.exit_fee_usd);
    }
    let buys = audit::live_buys(orders);
    assert forall|i: int| 0 <= i < buys.len() implies audit::commitment_ok(#[trigger] buys[i]) by {
        let o = buys[i];
        assert(cash_laws::plain_commitment(o));
        decimal::lemma_parts_of((0, 0));
        decimal::lemma_minus_plain(o.size, o.filled_size);
        decimal::lemma_times_plain(o.price, audit::unfilled(o));
    }
}

/// The cash of a maker's fill, and of a fill that is taken back, is in range where it needs no rounding.
pub proof fn law_the_cash_of_a_plain_fill_is_in_range(d: FillDeltaModel, fee_pct: Decimal)
    requires
        d.price.well_formed(),
        d.limit_price.well_formed(),
        d.delta.well_formed(),
        d.price.times_plain(d.delta),
        d.price.spec_neg().times_plain(d.delta),
        d.limit_price.times_plain(d.delta),
        d.role == OrderRole::Maker || d.delta@ <= 0,
    ensures
        fills::cash_ok(d, fee_pct),
{
    decimal::lemma_times_plain(d.price, d.delta);
    decimal::lemma_times_plain(d.limit_price, d.delta);
    decimal::lemma_neg(d.price);
    decimal::lemma_times_plain(d.price.spec_neg(), d.delta);
    decimal::lemma_parts_of((0, 0));
    law_a_hundredth_is_in_range(Decimal::spec_zero(), fills::fill_notional(d));
}

/// The cash of a sell made outside the kernel by a maker is in range where it needs no rounding.
pub proof fn law_a_plain_outside_sell_is_in_range(
    t: VenueTradeModel,
    positions: Seq<OpenPosition>,
    fee_pct: Decimal,
)
    requires
        t.maker == Some(true),
        t.price.well_formed(),
        t.size.well_formed(),
        forall|i: int|
            0 <= i < positions.len() ==> (#[trigger] positions[i]).shares.well_formed()
                && t.price.times_plain(positions[i].shares),
        t.price.times_plain(t.size),
    ensures
        fills::external_ok(t, positions, fee_pct),
{
    exits::lemma_position_on(positions, t.token_id);
    decimal::lemma_times_plain(t.price, t.size);
    if fills::folds_in(t, positions) {
        let i = exits::position_on(positions, t.token_id)->0;
        assert(positions[i].shares.well_formed());
        decimal::lemma_times_plain(t.price, positions[i].shares);
    }
}

/// The end of a round is in range for every slot, duration and instant of this age.
pub proof fn law_the_end_of_a_round_is_in_range(slot: i64, duration_sec: i64, now_ms: i64)
    requires
        slot <= 1_000_000_000,
        0 <= duration_sec <= 1_000_000,
        0 <= now_ms <= 1_000_000_000_000_000,
    ensures
        fills::round_end_ok(slot, duration_sec, now_ms),
{
    let s = slot as int;
    let d = duration_sec as int;
    if slot > 0 {
        assert(0 <= (s + 1) * d <= 1_000_000_001 * 1_000_000) by (nonlinear_arith)
            requires
                0 < s <= 1_000_000_000,
                0 <= d <= 1_000_000,
        ;
    }
}

/// A close without fees whose sums need no rounding can be booked, and taken back.
pub proof fn law_a_plain_close_is_in_range(a: StrategyAccountingModel, c: ClosedPosition)
    requires
        a.closed_trades < u64::MAX,
        a.wins < u64::MAX,
        a.losses < u64::MAX,
        c.entry_fee_pct == Decimal::spec_zero(),
        c.exit_fee_pct == Decimal::spec_zero(),
        a.fees_usd.well_formed(),
        a.net_pnl_usd.well_formed(),
        c.net_pnl_usd.well_formed(),
        a.net_pnl_usd.plus_plain(c.net_pnl_usd),
        a.net_pnl_usd.minus_plain(c.net_pnl_usd),
    ensures
        fills::close_ok(a, c),
        fills::unwind_ok(a, c),
        fills::trade_fees(c)@ == 0,
{
    let zero = Decimal::spec_zero();
    decimal::lemma_zero();
    decimal::lemma_parts_of((0, 0));
    decimal::lemma_parts_of((100, 0));
    law_a_hundredth_is_in_range(zero, c.entry_price);
    law_a_hundredth_is_in_range(zero, c.exit_price);
    let q = zero.spec_over(fees::hundred());
    assert(q == zero);
    assert(q.spec_times(c.entry_price) == zero);
    assert(q.spec_times(c.exit_price) == zero);
    assert(zero.spec_times(c.shares) == zero);
    decimal::lemma_zero_plus(zero);
    assert(0 * c.entry_price@ == 0);
    assert(0 * c.exit_price@ == 0);
    assert(0 * c.shares@ == 0);
    decimal::lemma_plus_plain(a.net_pnl_usd, c.net_pnl_usd);
    decimal::lemma_minus_plain(a.net_pnl_usd, c.net_pnl_usd);
    decimal::lemma_in_range(a.fees_usd);
}

/// A claim can be sent as long as its attempts can be counted and its clock can be set.
pub proof fn law_a_claim_can_be_sent(c: ClaimModel, now_ms: i64)
    requires
        c.attempts < u32::MAX,
        now_ms <= i64::MAX - settlement::RETRY_MAX_MS,
    ensures
        settlement::claim_sent_ok(c, now_ms),
{
}

/// A settlement whose sums need no rounding can be booked.
pub proof fn law_a_plain_settlement_can_be_booked(
    m: CoreModel,
    p: OpenPosition,
    r: MarketResolution,
    now_ms: i64,
)
    requires
        m.settlement.booked < u64::MAX,
        settlement::redeemed_of(m.settlement, p.condition_id@) < u32::MAX,
        p.shares.well_formed(),
        p.shares@ >= 0,
        settling::booking_at(p, r) matches Some(b) ==> {
            &&& b.payout_per_share.well_formed()
            &&& p.shares.times_plain(b.payout_per_share)
            &&& settlement::target_claim(m.settlement, b) matches Some(id) ==> (
            m.settlement.claims.dom().contains(id) ==> {
                let c = m.settlement.claims[id];
                &&& c.payout_usd.well_formed()
                &&& c.payout_usd.plus_plain(b.payout_usd)
                &&& forall|i: int|
                    0 <= i < c.outcome_shares.len() ==> (
                    #[trigger] c.outcome_shares[i]).well_formed() && c.outcome_shares[i].plus_plain(
                        p.shares,
                    )
            })
        },
    ensures
        settling::settle_ok(m, p, r, now_ms),
{
    decimal::lemma_zero();
    if settling::booking_at(p, r) is Some {
        let b = settling::booking_at(p, r)->0;
        decimal::lemma_times_plain(p.shares, b.payout_per_share);
        assert(b.shares == p.shares);
        if settlement::target_claim(m.settlement, b) is Some {
            let id = settlement::target_claim(m.settlement, b)->0;
            if m.settlement.claims.dom().contains(id) {
                let c = m.settlement.claims[id];
                decimal::lemma_plus_plain(c.payout_usd, b.payout_usd);
                assert forall|i: int| 0 <= i < c.outcome_shares.len() implies (
                #[trigger] c.outcome_shares[i]).plus_ok(p.shares) by {
                    decimal::lemma_plus_plain(c.outcome_shares[i], p.shares);
                }
            }
        }
    }
}

/// A journal line is taken in wherever what it adds up needs no rounding and its redemptions can be
/// counted.
pub proof fn law_a_plain_journal_line_is_taken_in(m: BookModel, line: LineModel)
    requires
        match line {
            LineModel::Settlement { at_ms, record } => {
                &&& record.payout_usd.well_formed()
                &&& record.shares.well_formed()
                &&& m.claims.dom().contains(record.claim_id) ==> {
                    let c = m.claims[record.claim_id];
                    &&& c.payout_usd.well_formed()
                    &&& c.payout_usd.plus_plain(record.payout_usd)
                    &&& forall|i: int|
                        0 <= i < c.outcome_shares.len() ==> (
                        #[trigger] c.outcome_shares[i]).well_formed()
                            && c.outcome_shares[i].plus_plain(record.shares)
                }
            },
            LineModel::Closed { at_ms, key } => true,
            LineModel::Redeemed { at_ms, claim_id, tx_hash, block_number } => forall|k: Seq<char>|
                #[trigger] settlement::redeemed_of(m, k) < u32::MAX,
        },
    ensures
        settlement::replay_ok(m, line),
{
    match line {
        LineModel::Settlement { at_ms, record } => {
            if m.claims.dom().contains(record.claim_id) {
                let c = m.claims[record.claim_id];
                decimal::lemma_plus_plain(c.payout_usd, record.payout_usd);
                assert forall|i: int| 0 <= i < c.outcome_shares.len() implies (
                #[trigger] c.outcome_shares[i]).plus_ok(record.shares) by {
                    decimal::lemma_plus_plain(c.outcome_shares[i], record.shares);
                }
            }
        },
        _ => {},
    }
}

/// An order whose notional needs no rounding can be placed, as long as there are ids and its clocks can
/// be set.
pub proof fn law_a_plain_order_can_be_placed(
    m: CoreModel,
    q: OrderRequestModel,
    replies: Replies,
    maker_timeout_ms: i64,
    now_ms: i64,
)
    requires
        m.next_id < u64::MAX,
        0 <= now_ms <= i64::MAX / 4,
        maker_timeout_ms <= i64::MAX / 4,
        i64::MIN / 4 <= m.config.default_maker_timeout_ms <= i64::MAX / 4,
        q.price.well_formed(),
        q.size.well_formed(),
        q.price.times_plain(q.size),
        replies.maker.chunk.well_formed(),
    ensures
        submission::placement_ok(m, q, replies, maker_timeout_ms, now_ms),
{
    decimal::lemma_times_plain(q.price, q.size);
    decimal::lemma_in_range(replies.maker.chunk);
    decimal::lemma_zero();
}

/// The sizing of a kernel without equity is in range where its widest ticket needs no rounding.
pub proof fn law_the_sizing_without_equity_is_in_range(
    equity: Decimal,
    g: EffectiveSizing,
    risk: RiskConfig,
)
    requires
        equity@ <= 0,
        g.max_shares.well_formed(),
        risk.max_price.well_formed(),
        g.max_shares@ >= 0,
        risk.max_price@ >= 0,
        g.max_shares.times_plain(risk.max_price),
    ensures
        limits::sizing_ok(equity, g, risk),
{
    decimal::lemma_zero();
    decimal::lemma_times_plain(g.max_shares, risk.max_price);
}

} // verus!
