//! Settlement and redemption, from a market's verdict to the cash.
use blitzkrieg_core::audit::{LedgerState, TradeTotals};
use blitzkrieg_core::config::{CoreConfig, PositionConfig, RiskConfig};
use blitzkrieg_core::decimal::Decimal;
use blitzkrieg_core::fills::BreakerVerdict;
use blitzkrieg_core::model::{
    CashFlows, Event, ExitReason, MarketResolution, OpenPosition, OrderRole, RedemptionFailure,
    RedemptionResult, SignalDirection,
};
use blitzkrieg_core::service::{AuditReport, ClosedPosition, Core};
use blitzkrieg_core::settlement::JournalLine;
use blitzkrieg_core::settling::SettleStep;

fn dec(num: i64, scale: u32) -> Decimal {
    Decimal::new(num, scale)
}

fn config() -> CoreConfig {
    let risk = RiskConfig {
        max_order_notional: dec(100, 0),
        max_order_notional_pct: dec(0, 0),
        max_open_notional_usd: dec(0, 0),
        max_price: dec(99, 2),
    };
    let positions = PositionConfig {
        max_daily_loss_equity_pct: dec(0, 0),
        exit_min_time_left_sec: 0,
    };
    let mut c = CoreConfig::with_defaults(risk, positions, 8_000);
    c.round_duration_sec = 1;
    c
}

/// Five shares at 0.40, paid 2.00 and 0.036 in fees, on a market that ends at 2000.
fn position() -> OpenPosition {
    OpenPosition {
        id: "pos_1".to_string(),
        strategy: "spread_arb".to_string(),
        asset: "BTC".to_string(),
        direction: SignalDirection::Up,
        token_id: "tok".to_string(),
        condition_id: "cond".to_string(),
        entry_price: dec(40, 2),
        current_price: dec(955, 3),
        prev_price: dec(40, 2),
        shares: dec(5, 0),
        cost_usd: dec(2, 0),
        was_maker_entry: false,
        entry_fee_pct: dec(18, 1),
        entry_role: OrderRole::Taker,
        exit_role: OrderRole::Taker,
        target_exit_price: None,
        entered_at_ms: 1,
        expires_at_ms: 2_000,
        last_book_ts: 1_998,
        flows: CashFlows {
            entry_cost_usd: dec(2, 0),
            entry_fee_usd: dec(36, 3),
            exit_fee_usd: dec(0, 0),
            proceeds_usd: dec(0, 0),
            opened_shares: dec(5, 0),
        },
    }
}

/// A kernel with the cash and the positions that its other parts would hold.
struct Desk {
    core: Core,
    cash: Decimal,
    open: Vec<OpenPosition>,
    closed: Vec<ClosedPosition>,
    errors: Vec<String>,
}

impl Desk {
    fn start(journal: Vec<JournalLine>) -> Desk {
        Desk {
            core: Core::new(config(), Some(journal), 0),
            cash: dec(7964, 3),
            open: vec![position()],
            closed: Vec::new(),
            errors: Vec::new(),
        }
    }

    fn hear(&mut self, events: Vec<Event>) {
        for e in events {
            if let Event::Error { error } = e {
                self.errors.push(error.message);
            }
        }
    }

    fn close(&mut self, id: &str, price: Decimal, reason: ExitReason) {
        let i = self.open.iter().position(|p| p.id == id).unwrap();
        let p = self.open.remove(i);
        let net = price
            .times(p.shares)
            .minus(p.flows.entry_cost_usd)
            .minus(p.flows.entry_fee_usd);
        let c = ClosedPosition {
            id: p.id.clone(),
            strategy: p.strategy.clone(),
            asset: p.asset.clone(),
            direction: p.direction,
            token_id: p.token_id.clone(),
            condition_id: p.condition_id.clone(),
            entry_price: p.entry_price,
            exit_price: price,
            shares: p.shares,
            entry_fee_pct: p.entry_fee_pct,
            exit_fee_pct: dec(0, 0),
            net_pnl_usd: net,
            net_pnl_pct: dec(0, 0),
            exit_reason: reason,
        };
        let calm = BreakerVerdict { tripped: false, losses: 0 };
        let events = self.core.on_position_closed(&c, calm, net, None);
        self.hear(events);
        self.closed.push(c);
    }

    fn resolve(&mut self, r: &MarketResolution, now_ms: i64) {
        let mut settled = 0;
        let mut payouts = Vec::new();
        let mut unpriced = Vec::new();
        for p in self.core.on_market_resolution(r, &self.open, now_ms) {
            match self.core.settle_position(&p, r, now_ms) {
                SettleStep::Unpriced { what } => unpriced.push(what),
                SettleStep::Known => {}
                SettleStep::Close { booking } => {
                    self.close(&p.id, booking.payout_per_share, ExitReason::Settlement);
                    self.core.note_settled_close(&booking.key, now_ms);
                    settled += 1;
                    payouts.push(booking.payout_usd);
                }
            }
        }
        let events = self.core.finish_resolution(r, settled, &payouts, &unpriced, now_ms);
        self.hear(events);
    }

    fn redeemed(&mut self, id: &str, now_ms: i64) {
        let result = RedemptionResult {
            id: id.to_string(),
            condition_id: "cond".to_string(),
            tx_hash: Some("0xabc".to_string()),
            block_number: Some(42),
            failure: None,
            at_ms: now_ms,
        };
        let (credit, events) = self.core.on_redemption_result(result, now_ms);
        if let Some(c) = credit {
            self.cash = self.cash.plus(c);
        }
        self.hear(events);
    }

    fn failed(&mut self, id: &str, message: &str, manual: bool, now_ms: i64) {
        let result = RedemptionResult {
            id: id.to_string(),
            condition_id: "cond".to_string(),
            tx_hash: None,
            block_number: None,
            failure: Some(RedemptionFailure { message: message.to_string(), manual }),
            at_ms: now_ms,
        };
        let (credit, events) = self.core.on_redemption_result(result, now_ms);
        assert!(credit.is_none());
        self.hear(events);
    }

    /// Runs an audit that finds nothing wrong.
    fn audit(&mut self, now_ms: i64) {
        let ledger = LedgerState {
            balance: self.cash,
            reserved: dec(0, 0),
            balanced: true,
            unfunded_reserved: dec(0, 0),
            reservations: vec![],
        };
        let x = self.core.build_audit_input(&Vec::new(), &ledger, None, &self.open, now_ms);
        self.core.run_accounting_audit(&report(true, false), x.identity, now_ms);
    }

    /// The cash and what is owed, less what the trades and the open positions explain.
    fn unexplained(&self, now_ms: i64) -> Decimal {
        let mut realized = dec(0, 0);
        for c in &self.closed {
            realized = realized.plus(c.net_pnl_usd);
        }
        let ledger = LedgerState {
            balance: self.cash,
            reserved: dec(0, 0),
            balanced: true,
            unfunded_reserved: dec(0, 0),
            reservations: vec![],
        };
        let totals = TradeTotals { realized, trades: self.closed.len() as u64 };
        let x = self
            .core
            .build_audit_input(&Vec::new(), &ledger, Some(totals), &self.open, now_ms)
            .identity;
        x.balance.plus(x.receivable).minus(x.realized).plus(x.spent).minus(x.received)
    }
}

fn verdict(token: &str, payout: Decimal) -> MarketResolution {
    MarketResolution {
        condition_id: "cond".to_string(),
        resolved: true,
        payouts: vec![(token.to_string(), payout)],
        neg_risk: false,
        source: "test".to_string(),
        winning_token: None,
    }
}

fn win() -> MarketResolution {
    verdict("tok", dec(1, 0))
}

#[test]
fn settlement_keeps_the_accounting_identity_true() {
    let mut d = Desk::start(vec![]);
    let anchor = d.unexplained(1_999);
    assert_eq!(anchor, dec(10, 0));
    d.resolve(&win(), 2_001);

    assert!(d.open.is_empty());
    assert_eq!(d.closed[0].exit_reason, ExitReason::Settlement);
    assert_eq!(d.closed[0].exit_price, dec(1, 0));
    assert_eq!(d.closed[0].net_pnl_usd, dec(2964, 3));

    // The cash has not moved: the payout is owed.
    assert_eq!(d.cash, dec(7964, 3));
    let v = d.core.settlement_view(3_000);
    assert_eq!(v.receivable_usd, dec(5, 0));
    assert_eq!(v.settled_positions, 1);
    assert_eq!(v.pending_redemptions, 1);
    assert_eq!(v.watched_markets, 0);
    assert_eq!(d.unexplained(2_002), anchor);

    let due = d.core.take_pending_redemptions(2_003);
    assert_eq!(due.len(), 1);
    assert_eq!(due[0].id, "cond");
    assert_eq!(due[0].condition_id, "cond");
    assert_eq!(due[0].outcome_shares, vec![dec(5, 0), dec(0, 0)]);
    assert_eq!(due[0].expected_payout_usd, dec(5, 0));
    assert!(!due[0].neg_risk);
    assert!(d.core.take_pending_redemptions(2_003).is_empty());

    d.redeemed("cond", 2_004);
    assert_eq!(d.cash, dec(12964, 3));
    let v = d.core.settlement_view(3_000);
    assert_eq!(v.receivable_usd, dec(0, 0));
    assert_eq!(v.pending_redemptions, 0);
    assert_eq!(v.redeemed_claims, 1);
    assert_eq!(d.unexplained(2_005), anchor);
    d.audit(2_005);
    assert_eq!(d.core.accounting_audit_view().unwrap().receivable_usd, dec(0, 0));
}

#[test]
fn a_redelivered_resolution_does_not_settle_twice() {
    let mut d = Desk::start(vec![]);
    d.resolve(&win(), 2_001);
    // Even where the position is still listed as open, the second verdict finds it settled.
    d.open.push(position());
    d.resolve(&win(), 2_002);
    d.resolve(&win(), 2_003);
    d.open.clear();

    assert_eq!(d.closed.len(), 1);
    assert_eq!(d.closed[0].net_pnl_usd, dec(2964, 3));
    let v = d.core.settlement_view(3_000);
    assert_eq!(v.receivable_usd, dec(5, 0));
    assert_eq!(v.pending_redemptions, 1);

    let due = d.core.take_pending_redemptions(2_005);
    d.redeemed(&due[0].id, 2_006);
    d.resolve(&win(), 2_007);
    assert_eq!(d.cash, dec(12964, 3));
    assert_eq!(d.closed.len(), 1);
}

#[test]
fn a_failed_redemption_is_loud_and_retried() {
    let mut d = Desk::start(vec![]);
    d.resolve(&win(), 2_001);
    let before = d.cash;
    let due = d.core.take_pending_redemptions(2_002);
    let id = due[0].id.clone();
    d.failed(&id, "nonce too low", false, 2_003);
    assert_eq!(d.errors.len(), 1);
    assert!(d.errors[0].contains("nonce too low"), "{}", d.errors[0]);
    assert_eq!(d.cash, before);
    let v = d.core.settlement_view(3_000);
    assert_eq!(v.receivable_usd, dec(5, 0));
    assert_eq!(v.retryable_redemptions, 1);
    assert_eq!(v.last_error.unwrap().1, "nonce too low");

    assert!(d.core.take_pending_redemptions(2_005).is_empty());
    let retry_at = d.core.settlement.claim(&id).unwrap().next_attempt_ms;
    assert_eq!(d.core.take_pending_redemptions(retry_at).len(), 1);

    d.redeemed(&id, retry_at + 1);
    assert_eq!(d.cash, before.plus(dec(5, 0)));
    d.redeemed("cond", retry_at + 2);
    assert_eq!(d.cash, before.plus(dec(5, 0)));
}

#[test]
fn a_failed_redemption_holds_up_no_trading() {
    let mut d = Desk::start(vec![]);
    d.resolve(&win(), 2_001);
    let due = d.core.take_pending_redemptions(2_002);
    d.failed(&due[0].id, "nonce too low", false, 2_003);
    assert!(d.core.kill_reason.is_none());
    assert!(!d.core.audit.halted);
    assert_eq!(d.core.consecutive_venue_rejects, 0);
    assert_eq!(d.core.last_error.as_ref().unwrap().ts_ms, 2_003);
}

#[test]
fn a_manual_verdict_outlasts_a_late_result() {
    let mut d = Desk::start(vec![]);
    d.resolve(&win(), 2_001);
    let due = d.core.take_pending_redemptions(2_002);
    d.failed(&due[0].id, "positions are held by another address", true, 2_003);
    // The result of an earlier attempt comes late, and says that a retry might do.
    d.failed(&due[0].id, "nonce too low", false, 2_004);
    let claim = d.core.settlement.claim("cond").unwrap();
    assert!(claim.manual);
    assert_eq!(claim.next_attempt_ms, i64::MAX);
    assert_eq!(claim.last_error.as_deref(), Some("nonce too low"));
    assert!(d.core.take_pending_redemptions(i64::MAX / 2).is_empty());
    assert_eq!(d.core.settlement_view(3_000).manual_redemptions, 1);
    // No retry is promised where none will come.
    assert_eq!(d.errors.len(), 2);
    assert!(d.errors[1].contains("manual redemption required"), "{}", d.errors[1]);
    assert!(d.errors[1].contains("nonce too low"), "{}", d.errors[1]);
}

#[test]
fn a_manual_redemption_verdict_stops_the_retries() {
    let mut d = Desk::start(vec![]);
    d.resolve(&win(), 2_001);
    let due = d.core.take_pending_redemptions(2_002);
    d.failed(&due[0].id, "positions are held by another address", true, 2_003);
    let v = d.core.settlement_view(3_000);
    assert_eq!(v.manual_redemptions, 1);
    assert_eq!(v.retryable_redemptions, 0);
    assert!(d.core.take_pending_redemptions(i64::MAX / 2).is_empty());
    assert_eq!(v.receivable_usd, dec(5, 0));
    assert!(d.errors[0].contains("manual redemption required"), "{}", d.errors[0]);
}

#[test]
fn a_losing_position_settles_to_zero_without_a_claim() {
    let mut d = Desk::start(vec![]);
    let anchor = d.unexplained(1_999);
    d.resolve(&verdict("tok", dec(0, 0)), 2_001);
    assert_eq!(d.closed[0].exit_reason, ExitReason::Settlement);
    assert_eq!(d.closed[0].net_pnl_usd, dec(-2036, 3));
    let v = d.core.settlement_view(3_000);
    assert_eq!(v.receivable_usd, dec(0, 0));
    assert_eq!(v.pending_redemptions, 0);
    assert!(d.core.take_pending_redemptions(2_002).is_empty());
    assert_eq!(d.unexplained(2_003), anchor);
    assert_eq!(d.cash, dec(7964, 3));
}

#[test]
fn an_unpriced_token_is_reported_and_left_open() {
    let mut d = Desk::start(vec![]);
    d.resolve(&verdict("someone-elses-token", dec(1, 0)), 2_001);
    assert_eq!(d.errors.len(), 1);
    assert!(d.errors[0].contains("prices no outcome"), "{}", d.errors[0]);
    assert_eq!(d.open.len(), 1);
    assert_eq!(d.core.settlement_view(3_000).receivable_usd, dec(0, 0));
}

#[test]
fn dry_mode_settles_on_its_own_tick_without_a_chain() {
    let mut d = Desk::start(vec![]);
    let queries = d.core.take_settlement_queries(&d.open, 2_001);
    assert_eq!(queries.len(), 1);
    let r = d
        .core
        .dry_resolution(&queries[0], &vec![Some(dec(955, 3))], &d.open)
        .unwrap();
    assert_eq!(r.source, "core-dry");
    assert_eq!(r.payouts, vec![("tok".to_string(), dec(1, 0))]);
    d.resolve(&r, 2_001);
    for request in d.core.take_pending_redemptions(2_001) {
        let result = d.core.simulated_redemption(&request, 2_001);
        assert_eq!(result.tx_hash.as_deref(), Some("dry-simulated"));
        let (credit, _) = d.core.on_redemption_result(result, 2_001);
        d.cash = d.cash.plus(credit.unwrap());
    }
    assert!(d.open.is_empty());
    assert_eq!(d.closed[0].exit_reason, ExitReason::Settlement);
    assert_eq!(d.cash, dec(12964, 3));
    let v = d.core.settlement_view(3_000);
    assert_eq!(v.receivable_usd, dec(0, 0));
    assert_eq!(v.redeemed_claims, 1);
    assert_eq!(v.settled_positions, 1);
    let lines = d.core.settlement.take_journal_lines();
    assert!(lines.iter().any(|l| matches!(l, JournalLine::Closed { .. })));
    assert!(lines.iter().any(|l| matches!(
        l,
        JournalLine::Redeemed { tx_hash: Some(t), .. } if t == "dry-simulated"
    )));
    assert!(d.core.take_settlement_queries(&d.open, 2_500).is_empty());
}

#[test]
fn a_market_that_nobody_is_sure_of_pays_nobody() {
    let d = Desk::start(vec![]);
    let mut c = Core::new(config(), None, 0);
    let queries = c.take_settlement_queries(&d.open, 2_001);
    let r = c.dry_resolution(&queries[0], &vec![Some(dec(5, 1))], &d.open).unwrap();
    assert_eq!(r.payouts, vec![("tok".to_string(), dec(0, 0))]);
    // Without a book the latest valuation counts.
    let r = c.dry_resolution(&queries[0], &vec![None], &d.open).unwrap();
    assert_eq!(r.payouts, vec![("tok".to_string(), dec(1, 0))]);
}

#[test]
fn injected_failures_travel_the_same_path() {
    let mut cfg = config();
    cfg.dry_redeem_fail = 1;
    let mut d = Desk::start(vec![]);
    d.core = Core::new(cfg, Some(vec![]), 0);
    d.resolve(&win(), 2_001);
    let due = d.core.take_pending_redemptions(2_002);
    let first = d.core.simulated_redemption(&due[0], 2_002);
    assert_eq!(
        first.failure.as_ref().unwrap().message,
        "dry-simulated redemption failure (attempt 1 of 1 injected)"
    );
    d.core.on_redemption_result(first, 2_002);
    let retry_at = d.core.settlement.claim("cond").unwrap().next_attempt_ms;
    let due = d.core.take_pending_redemptions(retry_at);
    let second = d.core.simulated_redemption(&due[0], retry_at);
    assert!(second.failure.is_none());
}

#[test]
fn an_interrupted_settlement_recovers_once_on_restart() {
    // The settlement is in the journal, and its close is not.
    let mut before = Desk::start(vec![]);
    let p = position();
    assert!(matches!(
        before.core.settle_position(&p, &win(), 2_001),
        SettleStep::Close { .. }
    ));
    assert_eq!(before.core.settlement.receivable_usd(), dec(5, 0));
    let mut lines = before.core.settlement.take_journal_lines();

    let mut d = Desk::start(before.core.settlement.take_journal_lines());
    assert_eq!(d.core.settlement.receivable_usd(), dec(0, 0));
    let again: Vec<JournalLine> = lines.drain(..).collect();
    d.core = Core::new(config(), Some(again), 0);
    let recoveries = d.core.recover_settlements(&d.open);
    assert_eq!(recoveries.len(), 1);
    assert_eq!(recoveries[0].payout_per_share, dec(1, 0));
    d.close(&recoveries[0].position_id, recoveries[0].payout_per_share, ExitReason::Settlement);
    d.core.note_settled_close(&recoveries[0].key, 3_000);
    assert_eq!(d.core.tell_recovered(1).len(), 1);
    assert_eq!(d.closed[0].net_pnl_usd, dec(2964, 3));
    assert_eq!(d.core.settlement_view(3_000).receivable_usd, dec(5, 0));

    // Nothing is left to recover, and a verdict finds the position settled.
    d.open.push(position());
    assert!(d.core.recover_settlements(&d.open).is_empty());
    d.resolve(&win(), 3_002);
    assert_eq!(d.closed.len(), 1);
    assert_eq!(d.core.settlement_view(3_000).receivable_usd, dec(5, 0));
}

#[test]
fn the_panel_can_see_a_settled_but_unredeemed_claim() {
    let mut d = Desk::start(vec![]);
    d.audit(1_999);
    d.resolve(&win(), 2_001);
    let v = d.core.settlement_view(3_000);
    assert_eq!(v.claims[0].id, "cond");
    assert_eq!(v.claims[0].payout_usd, dec(5, 0));
    assert_eq!(v.claims[0].positions, 1);
    assert_eq!(v.claims[0].attempts, 0);
    assert!(!v.claims[0].manual);
    assert_eq!(v.blind_since_ms, None);
    assert_eq!(d.core.accounting_audit_view().unwrap().receivable_usd, dec(5, 0));
}

#[test]
fn the_paying_leg_of_a_pair_settles_first() {
    let mut d = Desk::start(vec![]);
    let mut down = position();
    down.id = "pos_0".to_string();
    down.token_id = "down".to_string();
    d.open = vec![down, position()];
    let mut r = win();
    r.payouts.push(("down".to_string(), dec(0, 0)));
    let order = d.core.on_market_resolution(&r, &d.open, 2_001);
    assert_eq!(order[0].token_id, "tok");
    assert_eq!(order[1].token_id, "down");
}

#[test]
fn silence_is_told_once() {
    let mut d = Desk::start(vec![]);
    assert_eq!(d.core.take_settlement_queries(&d.open, 2_001).len(), 1);
    assert!(d.core.alert_if_settlement_blind(2_002).is_empty());
    let late = 2_001 + 300_000 + 1;
    assert!(!d.core.alert_if_settlement_blind(late).is_empty());
    assert!(d.core.alert_if_settlement_blind(late + 1).is_empty());
}

#[test]
fn a_settlement_beyond_the_range_is_not_booked() {
    let huge = Decimal::from_i128_with_scale(79_228_162_514_264_337_593_543_950_335, 0);
    let mut d = Desk::start(vec![]);
    let mut p = position();
    p.shares = huge;
    assert!(d.core.checked_settle_position(&p, &verdict("tok", dec(2, 0)), 2_001).is_none());
    assert_eq!(d.core.settlement.applied_count(), 0);
    assert!(matches!(
        d.core.checked_settle_position(&p, &win(), 2_001),
        Some(SettleStep::Close { .. })
    ));
    let mut q = position();
    q.id = "pos_2".to_string();
    q.entered_at_ms = 2;
    assert!(d.core.checked_settle_position(&q, &win(), 2_002).is_none());
    let sums = vec![huge, huge];
    assert!(d.core.checked_finish_resolution(&win(), 2, &sums, &Vec::new(), 2_003).is_none());
    assert!(d.core.checked_settlement_view(2_003).is_some());
    d.audit(2_004);
    assert!(matches!(d.core.checked_accounting_audit_view(), Some(Some(_))));
}

fn report(ok: bool, structural: bool) -> AuditReport {
    AuditReport {
        ok,
        structural_failure: structural,
        note: "note".to_string(),
        drift_usd: dec(0, 0),
        summary: "summary".to_string(),
    }
}

#[test]
fn a_failing_audit_blocks_entries_until_it_passes() {
    let mut d = Desk::start(vec![]);
    let ledger = LedgerState {
        balance: d.cash,
        reserved: dec(0, 0),
        balanced: true,
        unfunded_reserved: dec(0, 0),
        reservations: vec![("gone".to_string(), dec(1, 0))],
    };
    let input = d.core.build_audit_input(&Vec::new(), &ledger, None, &d.open, 1);
    assert_eq!(input.stray_reservations.len(), 1);
    assert_eq!(input.identity.spent, dec(2036, 3));
    assert!(d.core.audit_due(1));
    let (events, written) = d.core.run_accounting_audit(&report(false, true), input.identity, 1);
    assert_eq!(events.len(), 1);
    assert!(written);
    assert!(d.core.audit_blocks_entries());
    assert_eq!(d.core.audit_halt_reason(), "note");
    assert!(d.core.audit_entry_gate().is_err());
    assert!(!d.core.audit_due(2));
    assert!(d.core.audit_due(30_001));
    let (events, _) = d.core.run_accounting_audit(&report(true, false), input.identity, 2);
    assert_eq!(events.len(), 1);
    assert!(!d.core.audit_blocks_entries());
    assert!(d.core.accounting_audit().unwrap().ok);
    // One read that only another source disagrees with does not block; a second one does.
    d.core.run_accounting_audit(&report(false, false), input.identity, 3);
    assert!(!d.core.audit_blocks_entries());
    d.core.run_accounting_audit(&report(false, false), input.identity, 4);
    assert!(d.core.audit_blocks_entries());
}
