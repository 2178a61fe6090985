//! The reasons that closes wait with.
use blitzkrieg_core::config::{CoreConfig, PositionConfig, RiskConfig};
use blitzkrieg_core::decimal::Decimal;
use blitzkrieg_core::entries::DataEvent;
use blitzkrieg_core::exit_reasons::EXIT_REASON_TABLE_MAX;
use blitzkrieg_core::fills::{AfterExit, BreakerVerdict, ExitLeft, FillDelta};
use blitzkrieg_core::model::{ExitReason, OrderRole, Side, SignalDirection};
use blitzkrieg_core::service::{ClosedPosition, Core};
use blitzkrieg_core::views::StatsInput;

fn dec(num: i64, scale: u32) -> Decimal {
    Decimal::new(num, scale)
}

fn cfg(stale_ms: i64) -> CoreConfig {
    let risk = RiskConfig {
        max_order_notional: dec(100, 0),
        max_order_notional_pct: dec(0, 0),
        max_open_notional_usd: dec(0, 0),
        max_price: dec(99, 2),
    };
    let positions = PositionConfig {
        max_daily_loss_equity_pct: dec(0, 0),
        exit_min_time_left_sec: 0,
    };
    let mut c = CoreConfig::with_defaults(risk, positions, stale_ms);
    c.auto_exits_enabled = false;
    c
}

fn kernel() -> Core {
    Core::new(cfg(8_000), None, 0)
}

fn closed(reason: ExitReason) -> ClosedPosition {
    ClosedPosition {
        id: "pos_1".to_string(),
        strategy: "spread_arb".to_string(),
        asset: "BTC".to_string(),
        direction: SignalDirection::Up,
        token_id: "tok".to_string(),
        condition_id: "cond".to_string(),
        entry_price: dec(40, 2),
        exit_price: dec(60, 2),
        shares: dec(10, 0),
        entry_fee_pct: dec(0, 0),
        exit_fee_pct: dec(0, 0),
        net_pnl_usd: dec(2, 0),
        net_pnl_pct: dec(50, 0),
        exit_reason: reason,
    }
}

fn calm() -> BreakerVerdict {
    BreakerVerdict { tripped: false, losses: 0 }
}

fn sold() -> FillDelta {
    FillDelta {
        order_id: "dry_2".to_string(),
        trade_id: "t2".to_string(),
        token_id: "tok".to_string(),
        condition_id: "cond".to_string(),
        side: Side::Sell,
        price: dec(55, 2),
        limit_price: dec(55, 2),
        delta: dec(10, 0),
        role: OrderRole::Taker,
        strategy: "spread_arb".to_string(),
        asset: "BTC".to_string(),
        direction: "up".to_string(),
        round_slot: 1,
    }
}

#[test]
fn a_close_retires_the_pending_exit_reason() {
    let mut c = kernel();
    let open = vec!["tok".to_string()];
    c.exit_reasons.note_exit_reason("tok", ExitReason::StopLoss, &open);
    assert_eq!(c.exit_reasons.len(), 1);
    let view = c.exit_reasons.exit_reasons_view(&open);
    assert_eq!(view.tracked_count, 1);
    assert_eq!(view.orphaned, 0);

    c.on_position_closed(&closed(ExitReason::Manual), calm(), dec(2, 0), None);

    assert_eq!(c.exit_reasons.len(), 0);
    let view = c.exit_reasons.exit_reasons_view(&Vec::new());
    assert_eq!(view.tracked_count, 0);
    assert_eq!(view.orphaned, 0);
}

#[test]
fn a_local_settlement_retires_the_pending_exit_reason() {
    let mut c = kernel();
    let open = vec!["tok".to_string()];
    // A stop was decided, its exit never filled, and the market resolved under it.
    c.exit_reasons.note_exit_reason("tok", ExitReason::StopLoss, &open);
    assert_eq!(c.exit_reasons.exit_reasons_view(&open).tracked_count, 1);
    c.on_position_closed(&closed(ExitReason::Settlement), calm(), dec(2, 0), None);
    let view = c.exit_reasons.exit_reasons_view(&Vec::new());
    assert_eq!(view.tracked_count, 0);
    assert_eq!(view.orphaned, 0);
}

#[test]
fn a_later_position_never_inherits_a_dead_exit_reason() {
    let mut c = kernel();
    let open = vec!["tok".to_string()];
    c.exit_reasons.note_exit_reason("tok", ExitReason::StopLoss, &open);
    c.on_position_closed(&closed(ExitReason::Manual), calm(), dec(2, 0), None);

    // The next position on the token has no reason of its own.
    let left = ExitLeft { shares: dec(0, 0), sellable: dec(0, 0) };
    match c.after_exit_fill(&sold(), Some(left)) {
        AfterExit::Closes { reason, was_maker } => {
            assert_eq!(reason, ExitReason::Manual);
            assert!(!was_maker);
        }
        other => panic!("{other:?}"),
    }
}

#[test]
fn the_reason_that_a_close_was_submitted_with_is_recorded() {
    let mut c = kernel();
    let open = vec!["tok".to_string()];
    c.exit_reasons.note_exit_reason("tok", ExitReason::TakeProfit, &open);
    // What is left can be sold: the position stays, and so does the reason.
    let left = ExitLeft { shares: dec(4, 0), sellable: dec(4, 0) };
    assert!(matches!(c.after_exit_fill(&sold(), Some(left)), AfterExit::Saved));
    assert_eq!(c.exit_reasons.get("tok"), Some(ExitReason::TakeProfit));
    // What is left cannot be sold: the position closes.
    let left = ExitLeft { shares: dec(4, 3), sellable: dec(0, 0) };
    match c.after_exit_fill(&sold(), Some(left)) {
        AfterExit::Closes { reason, .. } => assert_eq!(reason, ExitReason::TakeProfit),
        other => panic!("{other:?}"),
    }
    assert_eq!(c.exit_reasons.get("tok"), None);
}

#[test]
fn the_table_is_bounded_and_evicts_dead_entries_first() {
    let mut c = kernel();
    let open = vec!["live".to_string()];
    c.exit_reasons.note_exit_reason("live", ExitReason::TakeProfit, &open);
    for i in 0..EXIT_REASON_TABLE_MAX {
        c.exit_reasons.note_exit_reason(&format!("dead-{i}"), ExitReason::StopLoss, &open);
    }
    assert_eq!(c.exit_reasons.len(), EXIT_REASON_TABLE_MAX);
    assert_eq!(c.exit_reasons.get("live"), Some(ExitReason::TakeProfit));
    assert_eq!(c.exit_reasons.exit_reasons_view(&open).evicted_total, 1);
}

#[test]
fn the_oldest_entry_is_evicted_when_all_of_them_are_live() {
    let mut c = kernel();
    let mut open: Vec<String> = Vec::new();
    for i in 0..=EXIT_REASON_TABLE_MAX {
        open.push(format!("tok-{i}"));
        c.exit_reasons.note_exit_reason(&format!("tok-{i}"), ExitReason::TakeProfit, &open);
    }
    assert_eq!(c.exit_reasons.len(), EXIT_REASON_TABLE_MAX);
    assert_eq!(c.exit_reasons.get("tok-0"), None);
    assert!(c.exit_reasons.get(&format!("tok-{EXIT_REASON_TABLE_MAX}")).is_some());
}

#[test]
fn a_round_rollover_sweeps_reasons_whose_position_is_gone() {
    let mut c = kernel();
    let open = vec!["live".to_string()];
    c.exit_reasons.note_exit_reason("live", ExitReason::TakeProfit, &open);
    c.exit_reasons.note_exit_reason("ghost", ExitReason::StopLoss, &open);
    assert_eq!(c.exit_reasons.exit_reasons_view(&open).orphaned, 1);

    let ev = DataEvent::RoundMarkets { markets: vec![], now_ms: 5_000 };
    c.engine_on_data(&ev, &Vec::new(), &open);

    assert_eq!(c.exit_reasons.get("ghost"), None);
    assert_eq!(c.exit_reasons.get("live"), Some(ExitReason::TakeProfit));
    let view = c.exit_reasons.exit_reasons_view(&open);
    assert_eq!(view.orphaned, 0);
    assert_eq!(view.swept_total, 1);
}

#[test]
fn a_newer_reason_takes_the_place_of_an_older_one() {
    let mut c = kernel();
    let open = vec!["tok".to_string()];
    c.exit_reasons.note_exit_reason("tok", ExitReason::TakeProfit, &open);
    c.exit_reasons.note_exit_reason("tok", ExitReason::StopLoss, &open);
    assert_eq!(c.exit_reasons.len(), 1);
    assert_eq!(c.exit_reasons.take_exit_reason("tok"), Some(ExitReason::StopLoss));
    assert_eq!(c.exit_reasons.take_exit_reason("tok"), None);
}

#[test]
fn engine_stats_reports_the_orderbook_freshness_budget() {
    let view = |budget_ms: i64| {
        let c = Core::new(cfg(budget_ms), None, 0);
        let input = StatsInput {
            equity: dec(1000, 0),
            engine_sizing: None,
            engine_stale_ms: None,
            confirmed: vec![],
            open_tokens: vec![],
        };
        let v = c.engine_stats_at(&input, 1_000);
        (v.max_stale_ms, v.staleness_checked)
    };
    assert_eq!(view(25_000), (25_000, true));
    assert_eq!(view(8_000), (8_000, true));
    // Zero switches the check off.
    assert_eq!(view(0), (0, false));
}
