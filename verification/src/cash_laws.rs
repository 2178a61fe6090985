//! Where the cash is: what explains it, and that nothing the kernel does leaves any of it
//! unexplained.
use vstd::prelude::*;

use crate::audit;
use crate::audit::{AuditInput, LedgerState, TradeTotals};
use crate::decimal;
use crate::decimal::Decimal;
use crate::fills;
use crate::fills::FillDeltaModel;
use crate::model::{Mode, OpenPosition, Side, TrackedOrderModel};
use crate::service::{AuditReportModel, AuditRuntimeModel, CashIdentity, CoreModel};
use crate::settlement;
use crate::settlement::ClaimModel;
use crate::str_map;

verus! {

// ---------------------------------------------------------------------------------------------
// What explains the cash

/// What a position cost so far, fees with it.
pub open spec fn paid_in(p: OpenPosition) -> int {
    p.flows.entry_cost_usd@ + p.flows.entry_fee_usd@
}

/// What a position brought so far, fees taken off.
pub open spec fn taken_out(p: OpenPosition) -> int {
    p.flows.proceeds_usd@ - p.flows.exit_fee_usd@
}

/// What positions cost so far.
pub open spec fn all_paid_in(positions: Seq<OpenPosition>) -> int
    decreases positions.len(),
{
    if positions.len() == 0 {
        0
    } else {
        all_paid_in(positions.drop_last()) + paid_in(positions.last())
    }
}

/// What positions brought so far.
pub open spec fn all_taken_out(positions: Seq<OpenPosition>) -> int
    decreases positions.len(),
{
    if positions.len() == 0 {
        0
    } else {
        all_taken_out(positions.drop_last()) + taken_out(positions.last())
    }
}

/// The flows of a position are added up without rounding.
pub open spec fn plain_flows(p: OpenPosition) -> bool {
    &&& p.flows.entry_cost_usd.well_formed()
    &&& p.flows.entry_fee_usd.well_formed()
    &&& p.flows.proceeds_usd.well_formed()
    &&& p.flows.exit_fee_usd.well_formed()
    &&& p.flows.entry_cost_usd.plus_plain(p.flows.entry_fee_usd)
    &&& p.flows.proceeds_usd.minus_plain(p.flows.exit_fee_usd)
}

/// The sums over the open positions need no rounding.
pub open spec fn plain_sums(positions: Seq<OpenPosition>) -> bool {
    &&& forall|i: int| 0 <= i < positions.len() ==> plain_flows(#[trigger] positions[i])
    &&& decimal::total_plain(audit::outlays(positions))
    &&& decimal::total_plain(audit::takings(positions))
}

/// The sum of the payouts of a list of claims needs no rounding.
pub open spec fn plain_claims(s: Seq<(Seq<char>, ClaimModel)>) -> bool
    decreases s.len(),
{
    s.len() == 0 || (plain_claims(s.drop_last()) && s.last().1.payout_usd.well_formed()
        && settlement::payouts_sum(s.drop_last()).plus_plain(s.last().1.payout_usd))
}

proof fn lemma_plain_claims(s: Seq<(Seq<char>, ClaimModel)>)
    requires
        plain_claims(s),
    ensures
        settlement::payouts_sum(s).well_formed(),
        settlement::payouts_sum(s)@ == settlement::claims_worth(s),
    decreases s.len(),
{
    if s.len() == 0 {
        decimal::lemma_zero();
        decimal::lemma_parts_of((0, 0));
    } else {
        lemma_plain_claims(s.drop_last());
        decimal::lemma_plus_plain(settlement::payouts_sum(s.drop_last()), s.last().1.payout_usd);
    }
}

/// What is owed is the sum of what the claims owe, each counted once.
pub proof fn law_what_is_owed_is_the_sum_of_the_claims(m: settlement::BookModel)
    requires
        plain_claims(str_map::ordered(m.claims)),
    ensures
        settlement::payouts_sum(str_map::ordered(m.claims))@ == settlement::owed(m),
{
    lemma_plain_claims(str_map::ordered(m.claims));
}

proof fn lemma_flow_values(positions: Seq<OpenPosition>)
    requires
        forall|i: int| 0 <= i < positions.len() ==> plain_flows(#[trigger] positions[i]),
    ensures
        decimal::value_total(audit::outlays(positions)) == all_paid_in(positions),
        decimal::value_total(audit::takings(positions)) == all_taken_out(positions),
    decreases positions.len(),
{
    if positions.len() > 0 {
        let front = positions.drop_last();
        assert forall|i: int| 0 <= i < front.len() implies plain_flows(#[trigger] front[i]) by {
            assert(front[i] == positions[i]);
        }
        lemma_flow_values(front);
        assert(audit::outlays(positions).drop_last() =~= audit::outlays(front));
        assert(audit::takings(positions).drop_last() =~= audit::takings(front));
        let p = positions.last();
        assert(plain_flows(positions[positions.len() - 1]));
        decimal::lemma_plus_plain(p.flows.entry_cost_usd, p.flows.entry_fee_usd);
        decimal::lemma_minus_plain(p.flows.proceeds_usd, p.flows.exit_fee_usd);
    }
}

/// The cash that nothing explains: what is there and what is still owed, with what the open positions
/// cost put back, less what they brought and what closed trades made.
pub open spec fn unexplained(x: CashIdentity) -> int {
    x.balance@ + x.receivable@ + x.spent@ - x.received@ - x.realized@
}

/// What an audit explains the cash with: what every open position cost and what it brought, fees
/// counted, what every claim owes, and what the trade log realized; each of them once.
pub proof fn law_an_audit_counts_every_flow_once(
    m: CoreModel,
    balance: Decimal,
    trades: Option<TradeTotals>,
    positions: Seq<OpenPosition>,
)
    requires
        plain_sums(positions),
        plain_claims(str_map::ordered(m.settlement.claims)),
    ensures
        ({
            let x = audit::identity_of(m, balance, trades, positions);
            &&& x.balance == balance
            &&& x.spent@ == all_paid_in(positions)
            &&& x.received@ == all_taken_out(positions)
            &&& x.receivable@ == settlement::owed(m.settlement)
            &&& x.realized@ == match trades {
                Some(t) => t.realized@,
                None => 0,
            }
        }),
{
    lemma_flow_values(positions);
    decimal::lemma_total_plain(audit::outlays(positions));
    decimal::lemma_total_plain(audit::takings(positions));
    lemma_plain_claims(str_map::ordered(m.settlement.claims));
    decimal::lemma_zero();
}

/// Positions that differ from others at one place, and there in their flows alone.
pub open spec fn flows_moved(
    before: Seq<OpenPosition>,
    after: Seq<OpenPosition>,
    i: int,
    paid: int,
    taken: int,
) -> bool {
    &&& after.len() == before.len()
    &&& 0 <= i < before.len()
    &&& forall|j: int| 0 <= j < before.len() && j != i ==> #[trigger] after[j] == before[j]
    &&& paid_in(after[i]) == paid_in(before[i]) + paid
    &&& taken_out(after[i]) == taken_out(before[i]) + taken
}

proof fn lemma_flows_moved(
    before: Seq<OpenPosition>,
    after: Seq<OpenPosition>,
    i: int,
    paid: int,
    taken: int,
)
    requires
        flows_moved(before, after, i, paid, taken),
    ensures
        all_paid_in(after) == all_paid_in(before) + paid,
        all_taken_out(after) == all_taken_out(before) + taken,
    decreases before.len(),
{
    let b = before.drop_last();
    let a = after.drop_last();
    if i < b.len() {
        assert(after.last() == before.last()) by {
            assert(after[before.len() - 1] == before[before.len() - 1]);
        }
        assert forall|j: int| 0 <= j < b.len() && j != i implies #[trigger] a[j] == b[j] by {
            assert(after[j] == before[j]);
        }
        lemma_flows_moved(b, a, i, paid, taken);
    } else {
        assert(a =~= b) by {
            assert forall|j: int| 0 <= j < b.len() implies #[trigger] a[j] == b[j] by {
                assert(after[j] == before[j]);
            }
        }
    }
}

/// A fill of an open position leaves no cash unexplained: what it takes out of the ledger the position
/// cost, and what it puts in the position brought. So it is for buys and sells, whole and in part, for
/// makers and takers, and for a fill that is taken back.
pub proof fn law_a_fill_leaves_no_cash_unexplained(
    m: CoreModel,
    trades: Option<TradeTotals>,
    balance: Decimal,
    after_balance: Decimal,
    before: Seq<OpenPosition>,
    after: Seq<OpenPosition>,
    i: int,
    d: FillDeltaModel,
    fee_pct: Decimal,
    notional: int,
)
    requires
        plain_sums(before),
        plain_sums(after),
        plain_claims(str_map::ordered(m.settlement.claims)),
        d.price.well_formed(),
        d.delta.well_formed(),
        d.price.times_plain(d.delta),
        d.price.spec_neg().times_plain(d.delta),
        notional * decimal::one_unit() == d.price@ * d.delta@,
        flows_moved(
            before,
            after,
            i,
            if d.side == Side::Buy {
                notional + fills::fill_fee(d, fee_pct)@
            } else {
                0
            },
            if d.side == Side::Sell {
                notional - fills::fill_fee(d, fee_pct)@
            } else {
                0
            },
        ),
        after_balance@ == balance@ + fills::moves_value(fills::cash_moves(d, fee_pct)),
    ensures
        unexplained(audit::identity_of(m, after_balance, trades, after)) == unexplained(
            audit::identity_of(m, balance, trades, before),
        ),
{
    law_an_audit_counts_every_flow_once(m, balance, trades, before);
    law_an_audit_counts_every_flow_once(m, after_balance, trades, after);
    lemma_flows_moved(
        before,
        after,
        i,
        if d.side == Side::Buy {
            notional + fills::fill_fee(d, fee_pct)@
        } else {
            0
        },
        if d.side == Side::Sell {
            notional - fills::fill_fee(d, fee_pct)@
        } else {
            0
        },
    );
    law_a_fill_moves_its_notional_and_its_fee(d, fee_pct, notional);
}

/// A buy takes its price times its size out of the cash and a sell puts it in, and either takes the
/// fee out; a fill that is taken back does the opposite, with no fee.
pub proof fn law_a_fill_moves_its_notional_and_its_fee(
    d: FillDeltaModel,
    fee_pct: Decimal,
    notional: int,
)
    requires
        d.price.well_formed(),
        d.delta.well_formed(),
        d.price.times_plain(d.delta),
        d.price.spec_neg().times_plain(d.delta),
        notional * decimal::one_unit() == d.price@ * d.delta@,
    ensures
        fills::moves_value(fills::cash_moves(d, fee_pct)) == (if d.side == Side::Buy {
            -notional
        } else {
            notional
        }) - fills::fill_fee(d, fee_pct)@,
        d.delta@ <= 0 ==> fills::fill_fee(d, fee_pct)@ == 0,
{
    fills::law_a_fill_is_worth_its_price_times_its_size(d, fee_pct);
    let fill = fills::PricedFill { delta: d, fee_pct };
    let run = seq![fill];
    fills::law_fills_move_proceeds_less_cost_less_fees(run);
    assert(run.drop_last() =~= Seq::empty());
    assert(run.last() == fill);
    reveal_with_fuel(fills::cash_of, 2);
    reveal_with_fuel(fills::turned_over, 2);
    reveal_with_fuel(fills::fees_paid, 2);
    let u = decimal::one_unit();
    let n = fills::fill_notional(d)@;
    let b = fills::refund(d)@;
    assert(n == notional) by (nonlinear_arith)
        requires
            n * u == notional * u,
            u > 0,
    ;
    assert(b == -notional) by (nonlinear_arith)
        requires
            b * u == -(notional * u),
            u > 0,
    ;
}

proof fn lemma_flows_removed(positions: Seq<OpenPosition>, i: int)
    requires
        0 <= i < positions.len(),
    ensures
        all_paid_in(positions.remove(i)) == all_paid_in(positions) - paid_in(positions[i]),
        all_taken_out(positions.remove(i)) == all_taken_out(positions) - taken_out(positions[i]),
    decreases positions.len(),
{
    let front = positions.drop_last();
    if i < front.len() {
        lemma_flows_removed(front, i);
        assert(positions.remove(i).drop_last() =~= front.remove(i));
        assert(positions.remove(i).last() == positions.last());
        assert(front[i] == positions[i]);
    } else {
        assert(positions.remove(i) =~= front);
    }
}

/// A trade that closes leaves no cash unexplained: what the position brought less what it cost is
/// realized as it goes.
pub proof fn law_a_close_leaves_no_cash_unexplained(
    m: CoreModel,
    balance: Decimal,
    trades: TradeTotals,
    after: TradeTotals,
    positions: Seq<OpenPosition>,
    i: int,
)
    requires
        0 <= i < positions.len(),
        plain_sums(positions),
        plain_sums(positions.remove(i)),
        plain_claims(str_map::ordered(m.settlement.claims)),
        after.realized@ == trades.realized@ + taken_out(positions[i]) - paid_in(positions[i]),
    ensures
        unexplained(audit::identity_of(m, balance, Some(after), positions.remove(i)))
            == unexplained(audit::identity_of(m, balance, Some(trades), positions)),
{
    law_an_audit_counts_every_flow_once(m, balance, Some(trades), positions);
    law_an_audit_counts_every_flow_once(m, balance, Some(after), positions.remove(i));
    lemma_flows_removed(positions, i);
}

/// A settlement leaves no cash unexplained: what the position is owed is a receivable from the moment
/// at which it is realized, and turns into cash as it stops being owed.
pub proof fn law_a_settlement_leaves_no_cash_unexplained(
    m: CoreModel,
    settled: CoreModel,
    redeemed: CoreModel,
    balance: Decimal,
    after_balance: Decimal,
    trades: TradeTotals,
    after: TradeTotals,
    positions: Seq<OpenPosition>,
    i: int,
    payout: int,
    cash: int,
)
    requires
        0 <= i < positions.len(),
        plain_sums(positions),
        plain_sums(positions.remove(i)),
        plain_claims(str_map::ordered(m.settlement.claims)),
        plain_claims(str_map::ordered(settled.settlement.claims)),
        plain_claims(str_map::ordered(redeemed.settlement.claims)),
        settlement::owed(settled.settlement) == settlement::owed(m.settlement) + payout,
        after.realized@ == trades.realized@ + payout + taken_out(positions[i]) - paid_in(
            positions[i],
        ),
        settlement::owed(redeemed.settlement) == settlement::owed(settled.settlement) - cash,
        after_balance@ == balance@ + cash,
    ensures
        unexplained(audit::identity_of(settled, balance, Some(after), positions.remove(i)))
            == unexplained(audit::identity_of(m, balance, Some(trades), positions)),
        unexplained(
            audit::identity_of(redeemed, after_balance, Some(after), positions.remove(i)),
        ) == unexplained(audit::identity_of(m, balance, Some(trades), positions)),
{
    law_an_audit_counts_every_flow_once(m, balance, Some(trades), positions);
    law_an_audit_counts_every_flow_once(settled, balance, Some(after), positions.remove(i));
    law_an_audit_counts_every_flow_once(redeemed, after_balance, Some(after), positions.remove(i));
    lemma_flows_removed(positions, i);
}

// ---------------------------------------------------------------------------------------------
// What else an audit looks at

/// What an order may still take out of the cash: its limit times what of it has not filled, and
/// nothing where all of it has.
pub open spec fn still_commits(o: TrackedOrderModel) -> int {
    o.price@ * if o.size@ > o.filled_size@ {
        o.size@ - o.filled_size@
    } else {
        0
    }
}

/// What the working buys may still take out of the cash.
pub open spec fn all_commit(orders: Seq<TrackedOrderModel>) -> int
    decreases orders.len(),
{
    if orders.len() == 0 {
        0
    } else {
        all_commit(orders.drop_last()) + if orders.last().live && orders.last().side == Side::Buy {
            still_commits(orders.last())
        } else {
            0
        }
    }
}

/// How many working buys there are.
pub open spec fn buys_working(orders: Seq<TrackedOrderModel>) -> nat
    decreases orders.len(),
{
    if orders.len() == 0 {
        0
    } else {
        buys_working(orders.drop_last()) + if orders.last().live && orders.last().side == Side::Buy {
            1nat
        } else {
            0
        }
    }
}

/// What an order commits is computed without rounding.
pub open spec fn plain_commitment(o: TrackedOrderModel) -> bool {
    &&& o.price.well_formed()
    &&& o.size.well_formed()
    &&& o.filled_size.well_formed()
    &&& o.size.minus_plain(o.filled_size)
    &&& o.price.times_plain(audit::unfilled(o))
}

/// What is left of an order is its size less what has filled, and never less than nothing.
pub proof fn law_what_is_left_is_what_has_not_filled(o: TrackedOrderModel)
    requires
        plain_commitment(o),
    ensures
        audit::unfilled(o)@ == if o.size@ > o.filled_size@ {
            o.size@ - o.filled_size@
        } else {
            0
        },
        audit::commitment(o)@ * decimal::one_unit() == still_commits(o),
{
    decimal::lemma_zero();
    decimal::lemma_parts_of((0, 0));
    decimal::lemma_minus_plain(o.size, o.filled_size);
    decimal::lemma_times_plain(o.price, audit::unfilled(o));
}

proof fn lemma_commitments(orders: Seq<TrackedOrderModel>)
    requires
        forall|i: int|
            0 <= i < orders.len() && (#[trigger] orders[i]).live && orders[i].side == Side::Buy
                ==> plain_commitment(orders[i]),
    ensures
        decimal::value_total(audit::commitments(audit::live_buys(orders))) * decimal::one_unit()
            == all_commit(orders),
        audit::live_buys(orders).len() == buys_working(orders),
    decreases orders.len(),
{
    if orders.len() > 0 {
        let front = orders.drop_last();
        assert forall|i: int|
            0 <= i < front.len() && (#[trigger] front[i]).live && front[i].side
                == Side::Buy implies plain_commitment(front[i]) by {
            assert(front[i] == orders[i]);
        }
        lemma_commitments(front);
        let o = orders.last();
        assert(orders[orders.len() - 1] == o);
        if o.live && o.side == Side::Buy {
            let rest = audit::live_buys(front);
            law_what_is_left_is_what_has_not_filled(o);
            assert(audit::commitments(rest.push(o)).drop_last() =~= audit::commitments(rest));
            let x = decimal::value_total(audit::commitments(rest));
            let y = audit::commitment(o)@;
            let u = decimal::one_unit();
            assert((x + y) * u == x * u + y * u) by (nonlinear_arith);
        }
    }
}

/// The buys that an audit counts are the working ones, and what it says that they commit is what they
/// may still take out of the cash.
pub proof fn law_an_audit_counts_the_working_buys(orders: Seq<TrackedOrderModel>)
    requires
        forall|i: int|
            0 <= i < orders.len() && (#[trigger] orders[i]).live && orders[i].side == Side::Buy
                ==> plain_commitment(orders[i]),
        decimal::total_plain(audit::commitments(audit::live_buys(orders))),
    ensures
        decimal::total(audit::commitments(audit::live_buys(orders)))@ * decimal::one_unit()
            == all_commit(orders),
        audit::live_buys(orders).len() == buys_working(orders),
{
    lemma_commitments(orders);
    decimal::lemma_total_plain(audit::commitments(audit::live_buys(orders)));
}

/// A reservation is a stray just where no working buy has its order's id.
pub proof fn law_a_stray_reservation_has_no_working_buy(
    reservations: Seq<(String, Decimal)>,
    orders: Seq<TrackedOrderModel>,
)
    ensures
        forall|i: int|
            0 <= i < audit::strays(reservations, orders).len() ==> {
                let x = #[trigger] audit::strays(reservations, orders)[i];
                &&& forall|j: int|
                    0 <= j < orders.len() && (#[trigger] orders[j]).order_id == x.0
                        ==> !orders[j].live || orders[j].side != Side::Buy
                &&& exists|k: int|
                    0 <= k < reservations.len() && (#[trigger] reservations[k]).0@ == x.0
                        && reservations[k].1 == x.1
            },
        forall|k: int|
            0 <= k < reservations.len() && (forall|j: int|
                0 <= j < orders.len() && (#[trigger] orders[j]).order_id == (
                #[trigger] reservations[k]).0@ ==> !orders[j].live || orders[j].side != Side::Buy)
                ==> audit::strays(reservations, orders).contains(
                (reservations[k].0@, reservations[k].1),
            ),
    decreases reservations.len(),
{
    if reservations.len() > 0 {
        let front = reservations.drop_last();
        law_a_stray_reservation_has_no_working_buy(front, orders);
        let rest = audit::strays(front, orders);
        let all = audit::strays(reservations, orders);
        let last = reservations.last();
        assert(reservations[reservations.len() - 1] == last);
        assert forall|i: int| 0 <= i < all.len() implies {
            let x = #[trigger] all[i];
            &&& forall|j: int|
                0 <= j < orders.len() && (#[trigger] orders[j]).order_id == x.0
                    ==> !orders[j].live || orders[j].side != Side::Buy
            &&& exists|k: int|
                0 <= k < reservations.len() && (#[trigger] reservations[k]).0@ == x.0
                    && reservations[k].1 == x.1
        } by {
            if i < rest.len() {
                assert(all[i] == rest[i]);
                let k = choose|k: int|
                    0 <= k < front.len() && (#[trigger] front[k]).0@ == rest[i].0 && front[k].1
                        == rest[i].1;
                assert(reservations[k] == front[k]);
            }
        }
        assert forall|k: int|
            0 <= k < reservations.len() && (forall|j: int|
                0 <= j < orders.len() && (#[trigger] orders[j]).order_id == (
                #[trigger] reservations[k]).0@ ==> !orders[j].live || orders[j].side
                    != Side::Buy) implies all.contains((reservations[k].0@, reservations[k].1)) by {
            if k < front.len() {
                assert(front[k] == reservations[k]);
                assert(rest.contains((front[k].0@, front[k].1)));
                let n = choose|n: int| 0 <= n < rest.len() && rest[n] == (front[k].0@, front[k].1);
                assert(all[n] == rest[n]);
            } else {
                assert(all[all.len() - 1] == (last.0@, last.1));
            }
        }
    }
}

/// An audit is told what each part says of itself, and nothing else in its place.
pub proof fn law_an_audit_sees_what_the_parts_say(
    r: AuditInput,
    m: CoreModel,
    orders: Seq<TrackedOrderModel>,
    ledger: LedgerState,
    trades: Option<TradeTotals>,
    positions: Seq<OpenPosition>,
    now_ms: i64,
)
    requires
        audit::looks_at(r, m, orders, ledger, trades, positions, now_ms),
    ensures
        r.now_ms == now_ms,
        r.live <==> m.config.mode == Mode::Live,
        r.identity.balance == ledger.balance,
        r.reserved == ledger.reserved,
        r.ledger_balanced == ledger.balanced,
        r.unfunded_reserved == ledger.unfunded_reserved,
        r.open_positions == positions.len(),
        r.has_trade_log == (trades is Some),
        trades matches Some(t) ==> r.seen_trades == t.trades && r.identity.realized == t.realized,
        trades is None ==> r.seen_trades == 0 && r.identity.realized@ == 0,
        m.venue_free is None ==> r.venue_free is None && r.venue_free_at_ms is None,
        m.venue_free matches Some(v) ==> r.venue_free_at_ms == Some(v.0) && r.venue_free == Some(
            v.1,
        ),
        r.ledger_realigned == m.audit.last_realign,
{
    decimal::lemma_zero();
}

/// An audit counts itself, and a failure as one; it keeps its report and its instant.
pub proof fn law_an_audit_is_counted(
    m: CoreModel,
    report: AuditReportModel,
    identity: CashIdentity,
    now_ms: i64,
)
    requires
        m.audit.runs < u64::MAX,
        m.audit.failures < u64::MAX,
        m.audit.cross_source_failures < u32::MAX,
    ensures
        ({
            let after = audit::audited(m, report, identity, now_ms).audit;
            &&& after.runs == m.audit.runs + 1
            &&& after.failures == m.audit.failures + if report.ok {
                0int
            } else {
                1
            }
            &&& after.report == Some(report)
            &&& after.last_at_ms == now_ms
            &&& after.last_realign == m.audit.last_realign
            &&& (m.audit.anchor is None && !report.structural_failure ==> after.anchor == Some(
                identity,
            ))
            &&& !report.ok && !report.structural_failure ==> after.cross_source_failures
                == m.audit.cross_source_failures + 1
            &&& report.structural_failure ==> after.cross_source_failures == 0
            &&& after.halted && !m.audit.halted ==> after.halt_reason == report.note
        }),
{
}

/// An audit comes round once its interval is over and not before, unless there was none yet; an
/// interval that is not above zero is none.
pub proof fn law_an_audit_comes_round(
    m: CoreModel,
    report: AuditReportModel,
    identity: CashIdentity,
    now_ms: i64,
    later_ms: i64,
)
    requires
        now_ms != 0,
    ensures
        m.config.audit_interval_sec <= 0 ==> !audit::is_due(m, now_ms),
        m.config.audit_interval_sec > 0 && m.audit.last_at_ms == 0 ==> audit::is_due(m, now_ms),
        m.config.audit_interval_sec > 0 ==> (audit::is_due(
            audit::audited(m, report, identity, now_ms),
            later_ms,
        ) <==> later_ms - now_ms >= m.config.audit_interval_sec * 1000),
{
}

/// Every audit that fails, and every one that comes upon a halt, is written down; a healthy one is
/// where none was for [`audit::AUDIT_HEARTBEAT_MS`].
pub proof fn law_a_failing_audit_is_written_down(
    m: CoreModel,
    report: AuditReportModel,
    identity: CashIdentity,
    now_ms: i64,
    later_ms: i64,
    healthy: AuditReportModel,
)
    requires
        now_ms != 0,
        report.ok,
        healthy.ok,
        audit::is_recorded(m.audit, report, now_ms),
    ensures
        forall|x: AuditReportModel| !x.ok ==> #[trigger] audit::is_recorded(m.audit, x, now_ms),
        m.audit.halted ==> audit::is_recorded(m.audit, healthy, now_ms),
        audit::is_recorded(
            audit::audited(m, report, identity, now_ms).audit,
            healthy,
            later_ms,
        ) <==> later_ms - now_ms >= audit::AUDIT_HEARTBEAT_MS,
{
}

/// An audit is passed over only where it is healthy, nothing is halted, and the last one that was
/// written down is recent.
pub proof fn law_only_a_dull_audit_is_passed_over(
    m: AuditRuntimeModel,
    report: AuditReportModel,
    now_ms: i64,
)
    ensures
        !report.ok ==> audit::is_recorded(m, report, now_ms),
        m.halted ==> audit::is_recorded(m, report, now_ms),
        m.last_heartbeat_ms == 0 ==> audit::is_recorded(m, report, now_ms),
        report.ok && !m.halted && m.last_heartbeat_ms != 0 ==> (audit::is_recorded(m, report, now_ms)
            <==> m.last_heartbeat_ms + audit::AUDIT_HEARTBEAT_MS <= now_ms),
{
}

/// The venue's cash counts where the venue is real: it is kept with its instant, and a report that
/// moves the ledger is kept with how far it moved it. Elsewhere it changes nothing.
pub proof fn law_the_venues_cash_counts_live(
    m: CoreModel,
    reported: Decimal,
    previous: Decimal,
    now_ms: i64,
)
    requires
        reported.well_formed(),
        previous.well_formed(),
        reported.minus_plain(previous),
    ensures
        ({
            let after = audit::cash_reported(m, reported, previous, now_ms);
            if m.config.mode == Mode::Live {
                &&& after.venue_free == Some((now_ms, reported))
                &&& reported@ == previous@ ==> after.audit == m.audit
                &&& reported@ != previous@ ==> (after.audit.last_realign matches Some(x) && x.0
                    == now_ms && x.1@ == reported@ - previous@)
                &&& after.audit.halted == m.audit.halted
                &&& after.audit.anchor == m.audit.anchor
            } else {
                after == m
            }
        }),
{
    decimal::lemma_minus_plain(reported, previous);
}

} // verus!
