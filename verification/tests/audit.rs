//! The accounting audit: what it is measured from, what it blocks, and what it leaves alone.
use blitzkrieg_core::audit::{LedgerState, TradeTotals};
use blitzkrieg_core::config::{CoreConfig, PositionConfig, RiskConfig};
use blitzkrieg_core::decimal::Decimal;
use blitzkrieg_core::model::{Event, FillPolicy, Mode, OrderStatus, Side, TrackedOrder};
use blitzkrieg_core::service::{AuditReport, CashIdentity, Core};

fn dec(num: i64, scale: u32) -> Decimal {
    Decimal::new(num, scale)
}

fn kernel(mode: Mode) -> Core {
    let risk = RiskConfig {
        max_order_notional: dec(3, 0),
        max_order_notional_pct: dec(0, 0),
        max_open_notional_usd: dec(0, 0),
        max_price: dec(99, 2),
    };
    let positions = PositionConfig {
        max_daily_loss_equity_pct: dec(0, 0),
        exit_min_time_left_sec: 0,
    };
    let mut c = CoreConfig::with_defaults(risk, positions, 8_000);
    c.mode = mode;
    Core::new(c, None, 0)
}

fn cash(balance: i64) -> CashIdentity {
    CashIdentity {
        balance: dec(balance, 0),
        receivable: dec(0, 0),
        realized: dec(0, 0),
        spent: dec(0, 0),
        received: dec(0, 0),
    }
}

fn report(ok: bool, structural_failure: bool) -> AuditReport {
    AuditReport {
        ok,
        structural_failure,
        note: "drift 1.00".to_string(),
        drift_usd: dec(1, 0),
        summary: "drift 1.00 of 1000".to_string(),
    }
}

fn buy(id: &str, live: bool) -> TrackedOrder {
    TrackedOrder {
        order_id: id.to_string(),
        token_id: "tok".to_string(),
        condition_id: "cond".to_string(),
        side: Side::Buy,
        mode: FillPolicy::Maker,
        price: dec(40, 2),
        size: dec(10, 0),
        filled_size: dec(4, 0),
        status: if live { OrderStatus::Live } else { OrderStatus::Cancelled },
        live,
        internal_key: "k".to_string(),
        strategy: "spread_arb".to_string(),
        asset: "BTC".to_string(),
        direction: "up".to_string(),
        round_slot: 1,
        submitted_at_ms: 0,
        updated_at_ms: 0,
        maker_timeout_ms: 0,
        escalate_at_ms: None,
        venue_order_id: None,
    }
}

#[test]
fn the_anchor_is_taken_once() {
    let mut c = kernel(Mode::Dry);
    // Books that disagree with themselves are no anchor.
    c.run_accounting_audit(&report(false, true), cash(900), 1);
    assert!(c.audit.anchor.is_none());
    c.run_accounting_audit(&report(true, false), cash(1000), 2);
    assert_eq!(c.audit.anchor.unwrap().balance, dec(1000, 0));
    c.run_accounting_audit(&report(true, false), cash(1200), 3);
    assert_eq!(c.audit.anchor.unwrap().balance, dec(1000, 0));
    assert_eq!(c.audit.runs, 3);
    assert_eq!(c.audit.failures, 1);
}

#[test]
fn an_audit_never_freezes_trading() {
    let mut c = kernel(Mode::Dry);
    c.run_accounting_audit(&report(false, true), cash(900), 1);
    assert!(c.audit_blocks_entries());
    assert!(!c.is_killed());
}

#[test]
fn only_a_passing_audit_ends_a_halt() {
    let mut c = kernel(Mode::Dry);
    let (events, _) = c.run_accounting_audit(&report(false, true), cash(900), 1);
    assert_eq!(events.len(), 1);
    assert!(c.audit_blocks_entries());
    // A failure that only another source sees is still a failure.
    let mut later = report(false, false);
    later.note = "venue lags".to_string();
    let (events, written) = c.run_accounting_audit(&later, cash(900), 2);
    assert!(events.is_empty());
    assert!(written);
    assert!(c.audit_blocks_entries());
    assert_eq!(c.audit_halt_reason(), "drift 1.00");
    assert!(c.audit_entry_gate().is_err());
    let (events, _) = c.run_accounting_audit(&report(true, false), cash(1000), 3);
    assert_eq!(events.len(), 1);
    assert!(!c.audit_blocks_entries());
    assert_eq!(c.audit_halt_reason(), "");
    assert!(c.audit_entry_gate().is_ok());
    // The operator may end a halt by taking the brake off: entries resume, whatever the audit says.
    c.run_accounting_audit(&report(false, true), cash(900), 4);
    c.config.audit_halt_entries = false;
    let (events, _) = c.run_accounting_audit(&report(false, true), cash(900), 5);
    assert!(!c.audit_blocks_entries());
    match &events[0] {
        Event::RiskAlert { message, .. } => {
            assert_eq!(
                message,
                "accounting audit recovered — new entries resumed (drift 1.00)"
            );
        }
        other => panic!("{other:?}"),
    }
    // With the brake off a failing audit is only told.
    let (events, _) = c.run_accounting_audit(&report(false, true), cash(900), 6);
    match &events[0] {
        Event::RiskAlert { message, .. } => {
            assert_eq!(message, "accounting audit drift: drift 1.00");
        }
        other => panic!("{other:?}"),
    }
}

#[test]
fn the_panel_shows_no_audit_before_the_first_one() {
    let mut c = kernel(Mode::Dry);
    assert!(c.accounting_audit_view().is_none());
    c.run_accounting_audit(&report(false, true), cash(900), 1);
    let v = c.accounting_audit_view().unwrap();
    assert!(!v.ok);
    assert!(v.structural_failure);
    assert_eq!(v.note, "drift 1.00");
    assert_eq!(v.drift_usd, dec(1, 0));
    assert_eq!(v.summary, "drift 1.00 of 1000");
    assert!(v.halted);
    assert_eq!(v.halt_reason, "drift 1.00");
    assert_eq!(v.runs, 1);
    assert_eq!(v.failures, 1);
    assert!(!v.anchored);
    assert_eq!(v.receivable_usd, dec(0, 0));
}

#[test]
fn the_brake_can_be_taken_off() {
    let mut c = kernel(Mode::Dry);
    c.config.audit_halt_entries = false;
    let (events, _) = c.run_accounting_audit(&report(false, true), cash(900), 1);
    assert_eq!(events.len(), 1);
    assert!(!c.audit_blocks_entries());
    assert_eq!(c.audit.failures, 1);
}

#[test]
fn a_passing_audit_is_written_down_now_and_then() {
    let mut c = kernel(Mode::Dry);
    assert!(c.run_accounting_audit(&report(true, false), cash(1000), 1_000).1);
    assert!(!c.run_accounting_audit(&report(true, false), cash(1000), 31_000).1);
    assert!(c.run_accounting_audit(&report(true, false), cash(1000), 601_000).1);
    // A failing one always is, and so is the one that frees the entries again.
    assert!(c.run_accounting_audit(&report(false, true), cash(1000), 602_000).1);
    assert!(c.run_accounting_audit(&report(true, false), cash(1000), 603_000).1);
}

#[test]
fn an_audit_looks_at_orders_ledger_and_trades() {
    let mut c = kernel(Mode::Live);
    c.set_balance(dec(990, 0), dec(1000, 0), 40);
    assert_eq!(c.audit.last_realign, Some((40, dec(-10, 0))));
    let ledger = LedgerState {
        balance: dec(990, 0),
        reserved: dec(34, 1),
        balanced: true,
        unfunded_reserved: dec(0, 0),
        reservations: vec![
            ("live_1".to_string(), dec(24, 1)),
            ("live_2".to_string(), dec(1, 0)),
        ],
    };
    let trades = Some(TradeTotals { realized: dec(5, 0), trades: 7 });
    let orders = vec![buy("live_1", true), buy("live_2", false)];
    let x = c.checked_build_audit_input(&orders, &ledger, trades, &Vec::new(), 50).unwrap();
    assert!(x.live);
    assert_eq!(x.open_buys, 1);
    assert_eq!(x.open_buy_notional, dec(24, 1));
    assert_eq!(x.stray_reservations, vec![("live_2".to_string(), dec(1, 0))]);
    assert_eq!(x.venue_free, Some(dec(990, 0)));
    assert_eq!(x.venue_free_at_ms, Some(40));
    assert_eq!(x.ledger_realigned, Some((40, dec(-10, 0))));
    assert_eq!(x.identity.realized, dec(5, 0));
    assert_eq!(x.seen_trades, 7);
    assert!(x.has_trade_log);
    let huge = Decimal::from_i128_with_scale(79_228_162_514_264_337_593_543_950_335, 0);
    let mut wide = buy("live_3", true);
    wide.price = huge;
    let trades = Some(TradeTotals { realized: dec(5, 0), trades: 7 });
    assert!(c.checked_build_audit_input(&vec![wide], &ledger, trades, &Vec::new(), 50).is_none());
}

#[test]
fn a_simulated_kernel_hears_no_cash_of_a_venue() {
    let mut c = kernel(Mode::Dry);
    c.set_balance(dec(990, 0), dec(1000, 0), 40);
    assert_eq!(c.audit.last_realign, None);
    assert_eq!(c.venue_free, None);
}

#[test]
fn ids_are_given_away_once() {
    let mut c = kernel(Mode::ReadOnly);
    assert_eq!(c.new_order_id(), "readonly_1");
    assert_eq!(c.new_order_id(), "readonly_2");
}
