//! The kernel's own check of its books: what is handed to it, and what its verdict leads to.
//!
//! A verdict that the books are wrong blocks new entries. Exits go on: books that have drifted
//! must not trap a position.
use vstd::prelude::*;
use vstd::string::*;

use crate::decimal;
use crate::decimal::Decimal;
use crate::exits;
use crate::model;
use crate::model::{
    CoreError, CoreErrorCode, CoreErrorModel, Event, EventModel, Mode, OpenPosition, Side,
    TrackedOrder, TrackedOrderModel,
};
use crate::service;
use crate::service::{
    AuditReport, AuditReportModel, AuditRuntimeModel, CashIdentity, Core, CoreModel,
};
use crate::settlement;
use crate::str_map;
use crate::text;

verus! {

/// How often a healthy audit is written down.
pub const AUDIT_HEARTBEAT_MS: i64 = 600_000;

/// The failures in a row, seen by another source alone, that block entries: one may be a stale
/// read.
pub const CROSS_SOURCE_STRIKES: u32 = 2;

/// What the ledger says of itself.
#[derive(Debug)]
pub struct LedgerState {
    pub balance: Decimal,
    pub reserved: Decimal,
    pub balanced: bool,
    pub unfunded_reserved: Decimal,
    /// What each order has reserved.
    pub reservations: Vec<(String, Decimal)>,
}

/// What the trade log says of the trades that were closed.
#[derive(Clone, Copy, Debug)]
pub struct TradeTotals {
    pub realized: Decimal,
    pub trades: u64,
}

/// What an audit looks at.
#[derive(Debug)]
pub struct AuditInput {
    pub now_ms: i64,
    pub live: bool,
    pub identity: CashIdentity,
    pub reserved: Decimal,
    pub ledger_balanced: bool,
    pub unfunded_reserved: Decimal,
    /// What the working buys still commit.
    pub open_buy_notional: Decimal,
    pub open_buys: usize,
    /// Reservations without a working buy behind them: nobody will ever release them.
    pub stray_reservations: Vec<(String, Decimal)>,
    pub venue_free: Option<Decimal>,
    pub venue_free_at_ms: Option<i64>,
    pub ledger_realigned: Option<(i64, Decimal)>,
    pub open_positions: usize,
    pub seen_trades: u64,
    pub has_trade_log: bool,
}

/// The working buys among orders.
pub open spec fn live_buys(orders: Seq<TrackedOrderModel>) -> Seq<TrackedOrderModel>
    decreases orders.len(),
{
    if orders.len() == 0 {
        Seq::empty()
    } else {
        let rest = live_buys(orders.drop_last());
        if orders.last().live && orders.last().side == Side::Buy {
            rest.push(orders.last())
        } else {
            rest
        }
    }
}

/// What is left of an order to fill; nothing where more was filled than ordered.
pub open spec fn unfilled(o: TrackedOrderModel) -> Decimal {
    o.size.spec_minus(o.filled_size).spec_max(Decimal::spec_zero())
}

/// What is left of an order to fill.
pub fn left_to_fill(o: &TrackedOrder) -> (r: Decimal)
    requires
        o.size.minus_ok(o.filled_size),
    ensures
        r == unfilled(o@),
        r@ >= 0,
{
    o.size.minus(o.filled_size).max(Decimal::zero())
}

/// What an order still commits.
pub open spec fn commitment(o: TrackedOrderModel) -> Decimal {
    o.price.spec_times(unfilled(o))
}

/// What an order still commits stays in range.
pub open spec fn commitment_ok(o: TrackedOrderModel) -> bool {
    o.size.minus_ok(o.filled_size) && o.price.times_ok(unfilled(o))
}

/// What orders still commit, each.
pub open spec fn commitments(orders: Seq<TrackedOrderModel>) -> Seq<Decimal> {
    orders.map_values(|o: TrackedOrderModel| commitment(o))
}

/// What each order still commits stays in range, and so does the sum.
pub open spec fn commitments_ok(orders: Seq<TrackedOrderModel>) -> bool {
    &&& forall|i: int| 0 <= i < orders.len() ==> commitment_ok(#[trigger] orders[i])
    &&& decimal::total_ok(commitments(orders))
}

/// An order with this id is a working buy.
pub open spec fn buys_as(orders: Seq<TrackedOrderModel>, id: Seq<char>) -> bool {
    exists|i: int|
        0 <= i < orders.len() && (#[trigger] orders[i]).order_id == id && orders[i].live
            && orders[i].side == Side::Buy
}

/// The reservations that no working buy stands behind, by order and amount.
pub open spec fn strays(
    reservations: Seq<(String, Decimal)>,
    orders: Seq<TrackedOrderModel>,
) -> Seq<(Seq<char>, Decimal)>
    decreases reservations.len(),
{
    if reservations.len() == 0 {
        Seq::empty()
    } else {
        let rest = strays(reservations.drop_last(), orders);
        let last = reservations.last();
        if buys_as(orders, last.0@) {
            rest
        } else {
            rest.push((last.0@, last.1))
        }
    }
}

/// What each open position paid in, fees with it.
pub open spec fn outlays(positions: Seq<OpenPosition>) -> Seq<Decimal> {
    positions.map_values(
        |p: OpenPosition| p.flows.entry_cost_usd.spec_plus(p.flows.entry_fee_usd),
    )
}

/// What each open position got out, fees taken off.
pub open spec fn takings(positions: Seq<OpenPosition>) -> Seq<Decimal> {
    positions.map_values(|p: OpenPosition| p.flows.proceeds_usd.spec_minus(p.flows.exit_fee_usd))
}

/// The sums over the open positions stay in range.
pub open spec fn flows_ok(positions: Seq<OpenPosition>) -> bool {
    &&& forall|i: int|
        0 <= i < positions.len() ==> (#[trigger] positions[i]).flows.entry_cost_usd.plus_ok(
            positions[i].flows.entry_fee_usd,
        ) && positions[i].flows.proceeds_usd.minus_ok(positions[i].flows.exit_fee_usd)
    &&& decimal::total_ok(outlays(positions))
    &&& decimal::total_ok(takings(positions))
}

/// What a list of reservations says.
pub open spec fn reservation_rows(v: Seq<(String, Decimal)>) -> Seq<(Seq<char>, Decimal)> {
    v.map_values(|x: (String, Decimal)| (x.0@, x.1))
}

fn collect_commitments(orders: &Vec<TrackedOrder>) -> (r: Vec<Decimal>)
    requires
        commitments_ok(live_buys(exits::orders_model(orders@))),
    ensures
        r@ == commitments(live_buys(exits::orders_model(orders@))),
{
    let ghost all = exits::orders_model(orders@);
    let mut out: Vec<Decimal> = Vec::new();
    let mut i: usize = 0;
    proof {
        assert(all.take(0) =~= Seq::empty());
        assert(commitments(live_buys(all.take(0))) =~= Seq::empty());
    }
    while i < orders.len()
        invariant
            i <= orders@.len(),
            all == exits::orders_model(orders@),
            commitments_ok(live_buys(all)),
            out@ == commitments(live_buys(all.take(i as int))),
        decreases orders@.len() - i,
    {
        let o = &orders[i];
        let ghost before = live_buys(all.take(i as int));
        proof {
            assert(all.take(i + 1).drop_last() =~= all.take(i as int));
            assert(all.take(i + 1).last() == o@);
            lemma_live_buys_prefix(all, i + 1);
        }
        if o.live && o.side == Side::Buy {
            proof {
                assert(before.push(o@) == live_buys(all.take(i + 1)));
                assert(live_buys(all)[before.len() as int] == o@);
                assert(commitments(before.push(o@)) =~= commitments(before).push(commitment(o@)));
            }
            out.push(o.price.times(left_to_fill(o)));
        }
        i = i + 1;
    }
    assert(all.take(i as int) =~= all);
    out
}

/// The working buys of the first orders come first among the working buys of all.
pub proof fn lemma_live_buys_prefix(orders: Seq<TrackedOrderModel>, n: int)
    requires
        0 <= n <= orders.len(),
    ensures
        live_buys(orders.take(n)).len() <= live_buys(orders).len(),
        forall|i: int|
            0 <= i < live_buys(orders.take(n)).len() ==> #[trigger] live_buys(orders)[i]
                == live_buys(orders.take(n))[i],
    decreases orders.len(),
{
    if n == orders.len() {
        assert(orders.take(n) =~= orders);
    } else {
        assert(orders.drop_last().take(n) =~= orders.take(n));
        lemma_live_buys_prefix(orders.drop_last(), n);
    }
}

fn is_live_buy(orders: &Vec<TrackedOrder>, id: &str) -> (r: bool)
    ensures
        r == buys_as(exits::orders_model(orders@), id@),
{
    let ghost all = exits::orders_model(orders@);
    let mut i: usize = 0;
    while i < orders.len()
        invariant
            i <= orders@.len(),
            all == exits::orders_model(orders@),
            forall|j: int|
                0 <= j < i ==> !((#[trigger] all[j]).order_id == id@ && all[j].live && all[j].side
                    == Side::Buy),
        decreases orders@.len() - i,
    {
        let o = &orders[i];
        assert(all[i as int] == o@);
        if o.live && o.side == Side::Buy && text::same_text(o.order_id.as_str(), id) {
            assert(all[i as int].order_id == id@);
            return true;
        }
        i = i + 1;
    }
    false
}

fn collect_strays(reservations: &Vec<(String, Decimal)>, orders: &Vec<TrackedOrder>) -> (r: Vec<
    (String, Decimal),
>)
    ensures
        reservation_rows(r@) == strays(reservations@, exits::orders_model(orders@)),
{
    let mut out: Vec<(String, Decimal)> = Vec::new();
    let mut i: usize = 0;
    proof {
        assert(reservations@.take(0) =~= Seq::empty());
        assert(reservation_rows(out@) =~= Seq::empty());
    }
    while i < reservations.len()
        invariant
            i <= reservations@.len(),
            reservation_rows(out@) == strays(
                reservations@.take(i as int),
                exits::orders_model(orders@),
            ),
        decreases reservations@.len() - i,
    {
        let x = &reservations[i];
        proof {
            assert(reservations@.take(i + 1).drop_last() =~= reservations@.take(i as int));
        }
        if !is_live_buy(orders, x.0.as_str()) {
            let ghost before = reservation_rows(out@);
            let name = x.0.clone();
            out.push((name, x.1));
            assert(reservation_rows(out@) =~= before.push((x.0@, x.1)));
        }
        i = i + 1;
    }
    assert(reservations@.take(i as int) =~= reservations@);
    out
}

fn collect_flows(positions: &Vec<OpenPosition>) -> (r: (Vec<Decimal>, Vec<Decimal>))
    requires
        flows_ok(positions@),
    ensures
        r.0@ == outlays(positions@),
        r.1@ == takings(positions@),
{
    let mut spent: Vec<Decimal> = Vec::new();
    let mut received: Vec<Decimal> = Vec::new();
    let mut i: usize = 0;
    while i < positions.len()
        invariant
            i <= positions@.len(),
            flows_ok(positions@),
            spent@ == outlays(positions@).take(i as int),
            received@ == takings(positions@).take(i as int),
        decreases positions@.len() - i,
    {
        let p = &positions[i];
        spent.push(p.flows.entry_cost_usd.plus(p.flows.entry_fee_usd));
        received.push(p.flows.proceeds_usd.minus(p.flows.exit_fee_usd));
        proof {
            assert(outlays(positions@).take(i + 1) =~= outlays(positions@).take(i as int).push(
                outlays(positions@)[i as int],
            ));
            assert(takings(positions@).take(i + 1) =~= takings(positions@).take(i as int).push(
                takings(positions@)[i as int],
            ));
        }
        i = i + 1;
    }
    proof {
        assert(outlays(positions@).take(i as int) =~= outlays(positions@));
        assert(takings(positions@).take(i as int) =~= takings(positions@));
    }
    (spent, received)
}

/// The sums that an audit looks at stay in range.
pub open spec fn audit_sums_ok(
    m: CoreModel,
    orders: Seq<TrackedOrderModel>,
    positions: Seq<OpenPosition>,
) -> bool {
    &&& commitments_ok(live_buys(orders))
    &&& flows_ok(positions)
    &&& settlement::payouts_sum_ok(str_map::ordered(m.settlement.claims))
}

/// The cash and what explains it.
pub open spec fn identity_of(
    m: CoreModel,
    balance: Decimal,
    trades: Option<TradeTotals>,
    positions: Seq<OpenPosition>,
) -> CashIdentity {
    CashIdentity {
        balance,
        receivable: settlement::payouts_sum(str_map::ordered(m.settlement.claims)),
        realized: match trades {
            Some(t) => t.realized,
            None => Decimal::spec_zero(),
        },
        spent: decimal::total(outlays(positions)),
        received: decimal::total(takings(positions)),
    }
}

// ---------------------------------------------------------------------------------------------
// What a verdict leads to

/// The failures in a row that only another source sees, after a verdict. A failure of the books
/// themselves is no stale read, and starts the row anew.
pub open spec fn strikes_after(strikes: u32, report: AuditReportModel) -> u32 {
    if report.ok || report.structural_failure {
        0
    } else {
        (strikes + 1) as u32
    }
}

/// A verdict blocks new entries: at once where the books disagree with themselves, and where only
/// another source disagrees once that repeats; unless the operator took the brake off.
pub open spec fn halts(report: AuditReportModel, strikes: u32, brake: bool) -> bool {
    !report.ok && (report.structural_failure || strikes >= CROSS_SOURCE_STRIKES) && brake
}

/// A halt that has begun goes on: it ends with an audit that passes, or where the operator takes the
/// brake off.
pub open spec fn holds_on(halted: bool, report: AuditReportModel, brake: bool) -> bool {
    halted && !report.ok && brake
}

/// A healthy audit is written down now and then.
pub open spec fn heartbeat_due(last_ms: i64, now_ms: i64) -> bool {
    last_ms == 0 || now_ms - last_ms >= AUDIT_HEARTBEAT_MS
}

/// A verdict is written down: every failure, every change, and a healthy one now and then.
pub open spec fn is_recorded(
    m: AuditRuntimeModel,
    report: AuditReportModel,
    now_ms: i64,
) -> bool {
    !report.ok || m.halted || heartbeat_due(m.last_heartbeat_ms, now_ms)
}

/// The audit's state after a verdict. The cash is measured from the first audit whose own books
/// agree, and that never moves: moving it would hide the drift.
pub open spec fn audit_step(
    m: AuditRuntimeModel,
    report: AuditReportModel,
    identity: CashIdentity,
    brake: bool,
    now_ms: i64,
) -> AuditRuntimeModel {
    let strikes = strikes_after(m.cross_source_failures, report);
    let halt = halts(report, strikes, brake);
    AuditRuntimeModel {
        anchor: if m.anchor is None && !report.structural_failure {
            Some(identity)
        } else {
            m.anchor
        },
        runs: (m.runs + 1) as u64,
        failures: if report.ok {
            m.failures
        } else {
            (m.failures + 1) as u64
        },
        cross_source_failures: strikes,
        halted: halt || holds_on(m.halted, report, brake),
        halt_reason: if halt {
            report.note
        } else if holds_on(m.halted, report, brake) {
            m.halt_reason
        } else if m.halted {
            Seq::empty()
        } else {
            m.halt_reason
        },
        last_heartbeat_ms: if is_recorded(m, report, now_ms) {
            now_ms
        } else {
            m.last_heartbeat_ms
        },
        report: Some(report),
        last_at_ms: now_ms,
        ..m
    }
}

/// What an operator is told when an audit is over: a halt, a recovery, a drift that does not halt, or
/// nothing new.
pub open spec fn audit_message(
    halted_before: bool,
    report: AuditReportModel,
    halt: bool,
    brake: bool,
) -> Option<Seq<char>> {
    if halt && !halted_before {
        Some("accounting audit FAILED — new entries blocked until it passes: "@ + report.note)
    } else if halt || holds_on(halted_before, report, brake) {
        None
    } else if halted_before {
        Some("accounting audit recovered — new entries resumed ("@ + report.note + ")"@)
    } else if !report.ok {
        Some("accounting audit drift: "@ + report.note)
    } else {
        None
    }
}

/// A kernel that has taken a verdict in; a halt that begins is also its last error.
pub open spec fn audited(
    m: CoreModel,
    report: AuditReportModel,
    identity: CashIdentity,
    now_ms: i64,
) -> CoreModel {
    let brake = m.config.audit_halt_entries;
    let halt = halts(report, strikes_after(m.audit.cross_source_failures, report), brake);
    let n = CoreModel { audit: audit_step(m.audit, report, identity, brake, now_ms), ..m };
    if halt && !m.audit.halted {
        service::error_noted(
            n,
            CoreErrorCode::Internal,
            audit_message(m.audit.halted, report, halt, brake)->0,
            now_ms,
        )
    } else {
        n
    }
}

/// What a kernel says of a verdict.
pub open spec fn audit_events(m: CoreModel, report: AuditReportModel) -> Seq<EventModel> {
    let halt = halts(
        report,
        strikes_after(m.audit.cross_source_failures, report),
        m.config.audit_halt_entries,
    );
    match audit_message(m.audit.halted, report, halt, m.config.audit_halt_entries) {
        Some(message) => seq![
            EventModel::RiskAlert { code: CoreErrorCode::Internal, message },
        ],
        None => Seq::empty(),
    }
}

/// The refusal of an entry while the audit fails.
pub open spec fn audit_refusal(m: CoreModel) -> Option<CoreErrorModel> {
    if m.audit.halted {
        Some(
            model::spec_error(
                CoreErrorCode::RiskRejected,
                "accounting audit halted new entries: "@ + m.audit.halt_reason,
            ),
        )
    } else {
        None
    }
}

/// An audit is due.
pub open spec fn is_due(m: CoreModel, now_ms: i64) -> bool {
    m.config.audit_interval_sec > 0 && (m.audit.last_at_ms == 0 || now_ms - m.audit.last_at_ms
        >= m.config.audit_interval_sec * 1000)
}

/// An audit looks at the kernel's own state, beside what the ledger, the trade log, the orders and
/// the positions say.
pub open spec fn looks_at(
    r: AuditInput,
    m: CoreModel,
    orders: Seq<TrackedOrderModel>,
    ledger: LedgerState,
    trades: Option<TradeTotals>,
    positions: Seq<OpenPosition>,
    now_ms: i64,
) -> bool {
    &&& r.now_ms == now_ms
    &&& r.live == (m.config.mode == Mode::Live)
    &&& r.identity == identity_of(m, ledger.balance, trades, positions)
    &&& r.reserved == ledger.reserved
    &&& r.ledger_balanced == ledger.balanced
    &&& r.unfunded_reserved == ledger.unfunded_reserved
    &&& r.open_buy_notional == decimal::total(commitments(live_buys(orders)))
    &&& r.open_buys == live_buys(orders).len()
    &&& reservation_rows(r.stray_reservations@) == strays(ledger.reservations@, orders)
    &&& r.venue_free == match m.venue_free {
        Some(v) => Some(v.1),
        None => None,
    }
    &&& r.venue_free_at_ms == match m.venue_free {
        Some(v) => Some(v.0),
        None => None,
    }
    &&& r.ledger_realigned == m.audit.last_realign
    &&& r.open_positions == positions.len()
    &&& r.seen_trades == match trades {
        Some(t) => t.trades,
        None => 0,
    }
    &&& r.has_trade_log == (trades is Some)
}

impl Core {
    /// What an audit looks at now: the kernel's own state, beside what the ledger, the trade log,
    /// the orders and the positions say.
    pub fn build_audit_input(
        &self,
        orders: &Vec<TrackedOrder>,
        ledger: &LedgerState,
        trades: Option<TradeTotals>,
        positions: &Vec<OpenPosition>,
        now_ms: i64,
    ) -> (r: AuditInput)
        requires
            self.wf(),
            audit_sums_ok(self@, exits::orders_model(orders@), positions@),
        ensures
            looks_at(
                r,
                self@,
                exits::orders_model(orders@),
                *ledger,
                trades,
                positions@,
                now_ms,
            ),
    {
        let terms = collect_commitments(orders);
        let (spent, received) = collect_flows(positions);
        let (realized, seen_trades, has_trade_log) = match trades {
            Some(t) => (t.realized, t.trades, true),
            None => (Decimal::zero(), 0, false),
        };
        AuditInput {
            now_ms,
            live: self.config.mode == Mode::Live,
            identity: CashIdentity {
                balance: ledger.balance,
                receivable: self.settlement.receivable_usd(),
                realized,
                spent: decimal::sum_of(&spent),
                received: decimal::sum_of(&received),
            },
            reserved: ledger.reserved,
            ledger_balanced: ledger.balanced,
            unfunded_reserved: ledger.unfunded_reserved,
            open_buy_notional: decimal::sum_of(&terms),
            open_buys: terms.len(),
            stray_reservations: collect_strays(&ledger.reservations, orders),
            venue_free: match self.venue_free {
                Some(v) => Some(v.1),
                None => None,
            },
            venue_free_at_ms: match self.venue_free {
                Some(v) => Some(v.0),
                None => None,
            },
            ledger_realigned: self.audit.last_realign,
            open_positions: positions.len(),
            seen_trades,
            has_trade_log,
        }
    }

    /// Takes the verdict of an audit in: counts it, blocks or frees new entries, and says so. The
    /// result also says whether the verdict is to be written down.
    pub fn run_accounting_audit(
        &mut self,
        report: &AuditReport,
        identity: CashIdentity,
        now_ms: i64,
    ) -> (r: (Vec<Event>, bool))
        requires
            old(self).wf(),
            old(self)@.audit.runs < u64::MAX,
            old(self)@.audit.failures < u64::MAX,
            old(self)@.audit.cross_source_failures < u32::MAX,
        ensures
            final(self).wf(),
            final(self)@ == audited(old(self)@, report@, identity, now_ms),
            service::events_model(r.0@) == audit_events(old(self)@, report@),
            r.1 == is_recorded(old(self)@.audit, report@, now_ms),
    {
        if self.audit.anchor.is_none() && !report.structural_failure {
            self.audit.anchor = Some(identity);
        }
        self.audit.runs = self.audit.runs + 1;
        if report.ok {
            self.audit.cross_source_failures = 0;
        } else {
            self.audit.failures = self.audit.failures + 1;
            if report.structural_failure {
                self.audit.cross_source_failures = 0;
            } else {
                self.audit.cross_source_failures = self.audit.cross_source_failures + 1;
            }
        }
        let cross_strike = self.audit.cross_source_failures >= CROSS_SOURCE_STRIKES;
        let should_halt = !report.ok && (report.structural_failure || cross_strike)
            && self.config.audit_halt_entries;
        let was_halted = self.audit.halted;
        let mut events = service::no_event();
        if should_halt && !was_halted {
            self.audit.halted = true;
            self.audit.halt_reason = report.note.clone();
            let message = text::join(
                "accounting audit FAILED — new entries blocked until it passes: ",
                report.note.as_str(),
            );
            self.note_error(&CoreError::new(CoreErrorCode::Internal, message.clone()), now_ms);
            events = self.emit_risk_alert(CoreErrorCode::Internal, message);
        } else if should_halt {
            self.audit.halt_reason = report.note.clone();
        } else if was_halted && !report.ok && self.config.audit_halt_entries {
            // Still failing: the halt goes on, for the reason that it began with.
        } else if was_halted {
            self.audit.halted = false;
            self.audit.halt_reason = String::new();
            assert(self.audit.halt_reason@ =~= Seq::<char>::empty());
            let mut message = text::join(
                "accounting audit recovered — new entries resumed (",
                report.note.as_str(),
            );
            message.append(")");
            events = self.emit_risk_alert(CoreErrorCode::Internal, message);
        } else if !report.ok {
            let message = text::join("accounting audit drift: ", report.note.as_str());
            events = self.emit_risk_alert(CoreErrorCode::Internal, message);
        }
        let heartbeat = self.audit.last_heartbeat_ms == 0 || now_ms as i128
            - self.audit.last_heartbeat_ms as i128 >= AUDIT_HEARTBEAT_MS as i128;
        let recorded = !report.ok || was_halted || heartbeat;
        if recorded {
            self.audit.last_heartbeat_ms = now_ms;
        }
        self.audit.report = Some(report.clone());
        self.audit.last_at_ms = now_ms;
        (events, recorded)
    }

    /// Whether an audit is due: the first one at once, a later one after the interval; none where
    /// the interval is zero.
    pub fn audit_due(&self, now_ms: i64) -> (r: bool)
        ensures
            r == is_due(self@, now_ms),
    {
        self.config.audit_interval_sec > 0 && (self.audit.last_at_ms == 0 || now_ms as i128
            - self.audit.last_at_ms as i128 >= self.config.audit_interval_sec as i128 * 1000)
    }

    /// The latest verdict.
    pub fn accounting_audit(&self) -> (r: Option<&AuditReport>)
        ensures
            match r {
                Some(report) => self@.audit.report == Some(report@),
                None => self@.audit.report is None,
            },
    {
        self.audit.report.as_ref()
    }

    /// Whether a failing audit blocks new entries.
    pub fn audit_blocks_entries(&self) -> (r: bool)
        ensures
            r == self@.audit.halted,
    {
        self.audit.halted
    }

    /// Why new entries are blocked; empty where they are not.
    pub fn audit_halt_reason(&self) -> (r: &str)
        ensures
            r@ == self@.audit.halt_reason,
    {
        self.audit.halt_reason.as_str()
    }

    /// Refuses a new entry while the audit fails. Exits never ask.
    pub fn audit_entry_gate(&self) -> (r: Result<(), CoreError>)
        ensures
            match r {
                Ok(_) => audit_refusal(self@) is None,
                Err(e) => audit_refusal(self@) == Some(e@),
            },
    {
        if self.audit.halted {
            return Err(
                CoreError::new(
                    CoreErrorCode::RiskRejected,
                    text::join(
                        "accounting audit halted new entries: ",
                        self.audit.halt_reason.as_str(),
                    ),
                ),
            );
        }
        Ok(())
    }

    /// Takes the cash in that the venue reports. In a live kernel the figure is remembered for the
    /// audit, and a change from what the ledger held is remembered as the venue's correction.
    pub fn set_balance(&mut self, reported: Decimal, previous: Decimal, now_ms: i64)
        requires
            old(self).wf(),
            reported.minus_ok(previous),
        ensures
            final(self).wf(),
            final(self)@ == cash_reported(old(self)@, reported, previous, now_ms),
    {
        if self.config.mode == Mode::Live {
            if previous != reported {
                self.audit.last_realign = Some((now_ms, reported.minus(previous)));
            }
            self.venue_free = Some((now_ms, reported));
        }
    }
}

/// A kernel that has taken the venue's cash in.
pub open spec fn cash_reported(
    m: CoreModel,
    reported: Decimal,
    previous: Decimal,
    now_ms: i64,
) -> CoreModel {
    if m.config.mode == Mode::Live {
        CoreModel {
            audit: AuditRuntimeModel {
                last_realign: if previous@ != reported@ {
                    Some((now_ms, reported.spec_minus(previous)))
                } else {
                    m.audit.last_realign
                },
                ..m.audit
            },
            venue_free: Some((now_ms, reported)),
            ..m
        }
    } else {
        m
    }
}

/// Once the cash is measured from an audit, it is measured from that one for good: no verdict
/// moves the anchor.
pub proof fn law_the_anchor_never_moves(
    m: CoreModel,
    report: AuditReportModel,
    identity: CashIdentity,
    now_ms: i64,
)
    requires
        m.audit.anchor is Some,
    ensures
        audited(m, report, identity, now_ms).audit.anchor == m.audit.anchor,
{
}

/// The cash is never measured from an audit whose own books disagree.
pub proof fn law_no_anchor_is_taken_from_broken_books(
    m: CoreModel,
    report: AuditReportModel,
    identity: CashIdentity,
    now_ms: i64,
)
    requires
        m.audit.anchor is None,
        report.structural_failure,
    ensures
        audited(m, report, identity, now_ms).audit.anchor is None,
{
}

/// A healthy verdict frees entries, whatever came before it.
pub proof fn law_a_healthy_audit_frees_entries(
    m: CoreModel,
    report: AuditReportModel,
    identity: CashIdentity,
    now_ms: i64,
)
    requires
        report.ok,
    ensures
        audit_refusal(audited(m, report, identity, now_ms)) is None,
        audited(m, report, identity, now_ms).audit.cross_source_failures == 0,
{
}

/// A verdict never freezes trading as a whole: exits go on.
pub proof fn law_an_audit_never_freezes_trading(
    m: CoreModel,
    report: AuditReportModel,
    identity: CashIdentity,
    now_ms: i64,
)
    ensures
        audited(m, report, identity, now_ms).kill_reason == m.kill_reason,
        audited(m, report, identity, now_ms).place_cooldowns == m.place_cooldowns,
{
}

/// A halt ends with an audit that passes and with nothing else, unless the operator took the brake
/// off: while audits fail, whatever they fail on, every entry stays refused and no recovery is
/// announced.
pub proof fn law_only_a_passing_audit_ends_a_halt(
    m: CoreModel,
    report: AuditReportModel,
    identity: CashIdentity,
    now_ms: i64,
)
    requires
        m.audit.halted,
        m.config.audit_halt_entries,
    ensures
        audited(m, report, identity, now_ms).audit.halted <==> !report.ok,
        audit_refusal(audited(m, report, identity, now_ms)) is Some <==> !report.ok,
        !report.ok ==> audit_events(m, report) == Seq::<EventModel>::empty(),
{
}

/// No halt begins or ends in silence: a verdict that blocks entries says so, and one after which they
/// are free again announces the recovery, whether the books agree or the operator took the brake
/// off.
pub proof fn law_a_halt_begins_and_ends_with_a_message(
    m: CoreModel,
    report: AuditReportModel,
    identity: CashIdentity,
    now_ms: i64,
)
    ensures
        ({
            let halted = audited(m, report, identity, now_ms).audit.halted;
            &&& (!m.audit.halted && halted) ==> audit_events(m, report) == seq![
                EventModel::RiskAlert {
                    code: CoreErrorCode::Internal,
                    message: "accounting audit FAILED — new entries blocked until it passes: "@
                        + report.note,
                },
            ]
            &&& (m.audit.halted && !halted) ==> audit_events(m, report) == seq![
                EventModel::RiskAlert {
                    code: CoreErrorCode::Internal,
                    message: "accounting audit recovered — new entries resumed ("@ + report.note
                        + ")"@,
                },
            ]
            &&& (m.audit.halted && halted) ==> audit_events(m, report) == Seq::<
                EventModel,
            >::empty()
        }),
{
}

/// Where entries are free, one disagreement that only another source sees does not block them; a
/// second one in a row does, and a disagreement of the books with themselves does at once.
pub proof fn law_one_stale_read_does_not_halt(
    m: CoreModel,
    report: AuditReportModel,
    identity: CashIdentity,
    now_ms: i64,
)
    requires
        !report.ok,
        !m.audit.halted,
        m.config.audit_halt_entries,
        m.audit.cross_source_failures < u32::MAX,
    ensures
        report.structural_failure ==> audited(m, report, identity, now_ms).audit.halted,
        !report.structural_failure ==> (audited(m, report, identity, now_ms).audit.halted
            <==> m.audit.cross_source_failures >= 1),
{
}

// ---------------------------------------------------------------------------------------------
// Asking beforehand

/// Whether what the working buys still commit stays in range, each and in all.
pub fn commitments_fit(orders: &Vec<TrackedOrder>) -> (r: bool)
    ensures
        r == commitments_ok(live_buys(exits::orders_model(orders@))),
{
    let ghost all = exits::orders_model(orders@);
    let mut terms: Vec<Decimal> = Vec::new();
    let mut i: usize = 0;
    proof {
        assert(all.take(0) =~= Seq::empty());
        assert(commitments(live_buys(all.take(0))) =~= Seq::empty());
    }
    while i < orders.len()
        invariant
            i <= orders@.len(),
            all == exits::orders_model(orders@),
            terms@ == commitments(live_buys(all.take(i as int))),
            forall|j: int|
                0 <= j < live_buys(all.take(i as int)).len() ==> commitment_ok(
                    #[trigger] live_buys(all.take(i as int))[j],
                ),
        decreases orders@.len() - i,
    {
        let o = &orders[i];
        let ghost before = live_buys(all.take(i as int));
        proof {
            assert(all.take(i + 1).drop_last() =~= all.take(i as int));
            assert(all.take(i + 1).last() == o@);
            lemma_live_buys_prefix(all, i + 1);
        }
        if o.live && o.side == Side::Buy {
            proof {
                assert(before.push(o@) == live_buys(all.take(i + 1)));
                assert(live_buys(all)[before.len() as int] == o@);
                assert(commitments(before.push(o@)) =~= commitments(before).push(commitment(o@)));
            }
            if !o.size.can_minus(o.filled_size) {
                return false;
            }
            let left = left_to_fill(o);
            if !o.price.can_times(left) {
                return false;
            }
            terms.push(o.price.times(left));
        }
        i = i + 1;
    }
    assert(all.take(i as int) =~= all);
    decimal::sums_fit(&terms)
}

fn flows_fit(positions: &Vec<OpenPosition>) -> (r: bool)
    ensures
        r == flows_ok(positions@),
{
    let mut spent: Vec<Decimal> = Vec::new();
    let mut received: Vec<Decimal> = Vec::new();
    let mut i: usize = 0;
    while i < positions.len()
        invariant
            i <= positions@.len(),
            forall|j: int|
                0 <= j < i ==> (#[trigger] positions@[j]).flows.entry_cost_usd.plus_ok(
                    positions@[j].flows.entry_fee_usd,
                ) && positions@[j].flows.proceeds_usd.minus_ok(positions@[j].flows.exit_fee_usd),
            spent@ == outlays(positions@).take(i as int),
            received@ == takings(positions@).take(i as int),
        decreases positions@.len() - i,
    {
        let f = positions[i].flows;
        assert(f == positions@[i as int].flows);
        if !f.entry_cost_usd.can_plus(f.entry_fee_usd) || !f.proceeds_usd.can_minus(
            f.exit_fee_usd,
        ) {
            return false;
        }
        spent.push(f.entry_cost_usd.plus(f.entry_fee_usd));
        received.push(f.proceeds_usd.minus(f.exit_fee_usd));
        proof {
            assert(outlays(positions@).take(i + 1) =~= outlays(positions@).take(i as int).push(
                outlays(positions@)[i as int],
            ));
            assert(takings(positions@).take(i + 1) =~= takings(positions@).take(i as int).push(
                takings(positions@)[i as int],
            ));
        }
        i = i + 1;
    }
    proof {
        assert(outlays(positions@).take(i as int) =~= outlays(positions@));
        assert(takings(positions@).take(i as int) =~= takings(positions@));
    }
    decimal::sums_fit(&spent) && decimal::sums_fit(&received)
}

impl Core {
    /// What an audit looks at now, where its sums stay in range.
    pub fn checked_build_audit_input(
        &self,
        orders: &Vec<TrackedOrder>,
        ledger: &LedgerState,
        trades: Option<TradeTotals>,
        positions: &Vec<OpenPosition>,
        now_ms: i64,
    ) -> (r: Option<AuditInput>)
        requires
            self.wf(),
        ensures
            match r {
                Some(x) => looks_at(
                    x,
                    self@,
                    exits::orders_model(orders@),
                    *ledger,
                    trades,
                    positions@,
                    now_ms,
                ),
                None => !audit_sums_ok(self@, exits::orders_model(orders@), positions@),
            },
    {
        if commitments_fit(orders) && flows_fit(positions)
            && self.settlement.checked_receivable_usd().is_some() {
            Some(self.build_audit_input(orders, ledger, trades, positions, now_ms))
        } else {
            None
        }
    }
}

} // verus!
