//! What a panel is shown.
use blitzkrieg_core::config::{CoreConfig, PositionConfig, RiskConfig};
use blitzkrieg_core::decimal::Decimal;
use blitzkrieg_core::entries::{CryptoMarket, DataEvent};
use blitzkrieg_core::limits::EffectiveSizing;
use blitzkrieg_core::model::{
    CashFlows, CoreError, CoreErrorCode, ExitReason, OpenPosition, OrderRole, SignalDirection,
};
use blitzkrieg_core::service::{ClosedPosition, Core};
use blitzkrieg_core::views::{
    blocked_by_strategy, market_prices, sort_texts, BookMetrics, PositionGains, RoundState, StatsInput, StrategyInfo,
};

fn dec(num: i64, scale: u32) -> Decimal {
    Decimal::new(num, scale)
}

fn kernel() -> Core {
    let risk = RiskConfig {
        max_order_notional: dec(100, 0),
        max_order_notional_pct: dec(0, 0),
        max_open_notional_usd: dec(0, 0),
        max_price: dec(99, 2),
    };
    let positions = PositionConfig {
        max_daily_loss_equity_pct: dec(0, 0),
        exit_min_time_left_sec: 0,
    };
    Core::new(CoreConfig::with_defaults(risk, positions, 8_000), None, 0)
}

fn sizing() -> EffectiveSizing {
    EffectiveSizing {
        size_usd: dec(25, 1),
        min_shares: dec(10, 0),
        max_shares: dec(10, 0),
        size_pct: dec(0, 0),
        strategy_scoped: false,
        size_weight: None,
    }
}

fn info(gates: &[&str], floor: Option<i64>, blocked_timing: u64, exempted: u64) -> StrategyInfo {
    StrategyInfo {
        source: "library".to_string(),
        sizing: sizing(),
        entry_budget_usd: dec(25, 1),
        exempt_gates: gates.iter().map(|g| g.to_string()).collect(),
        timing_floor_sec: floor,
        blocked_timing,
        blocked_momentum: 0,
        exempted_timing: exempted,
        exempted_momentum: 0,
    }
}

fn texts(names: &[&str]) -> Vec<String> {
    names.iter().map(|n| n.to_string()).collect()
}

fn held(id: &str, token: &str, shares: Decimal) -> OpenPosition {
    OpenPosition {
        id: id.to_string(),
        strategy: "spread_arb".to_string(),
        asset: "BTC".to_string(),
        direction: SignalDirection::Up,
        token_id: token.to_string(),
        condition_id: "cond".to_string(),
        entry_price: dec(40, 2),
        current_price: dec(40, 2),
        prev_price: dec(40, 2),
        shares,
        cost_usd: dec(80, 2),
        was_maker_entry: false,
        entry_fee_pct: dec(0, 0),
        entry_role: OrderRole::Taker,
        exit_role: OrderRole::Taker,
        target_exit_price: None,
        entered_at_ms: 1,
        expires_at_ms: 1_800_000,
        last_book_ts: 0,
        flows: CashFlows {
            entry_cost_usd: dec(80, 2),
            entry_fee_usd: dec(0, 0),
            exit_fee_usd: dec(0, 0),
            proceeds_usd: dec(0, 0),
            opened_shares: shares,
        },
    }
}

fn closed(id: &str) -> ClosedPosition {
    ClosedPosition {
        id: id.to_string(),
        strategy: "spread_arb".to_string(),
        asset: "BTC".to_string(),
        direction: SignalDirection::Up,
        token_id: "tok".to_string(),
        condition_id: "cond".to_string(),
        entry_price: dec(40, 2),
        exit_price: dec(60, 2),
        shares: dec(10, 0),
        entry_fee_pct: dec(0, 0),
        exit_fee_pct: dec(0, 0),
        net_pnl_usd: dec(2, 0),
        net_pnl_pct: dec(50, 0),
        exit_reason: ExitReason::TakeProfit,
    }
}

fn market(asset: &str) -> CryptoMarket {
    CryptoMarket {
        asset: asset.to_string(),
        up_token_id: "up".to_string(),
        down_token_id: "down".to_string(),
        up_price: dec(6, 1),
        down_price: dec(4, 1),
    }
}

fn metrics() -> BookMetrics {
    BookMetrics {
        best_bid: dec(43, 2),
        best_ask: dec(45, 2),
        mid_price: dec(44, 2),
        obi: dec(0, 0),
        spread: dec(2, 2),
        spread_pct: dec(454, 2),
    }
}

fn input(confirmed: &[&str]) -> StatsInput {
    StatsInput {
        equity: dec(1000, 0),
        engine_sizing: None,
        engine_stale_ms: None,
        confirmed: texts(confirmed),
        open_tokens: Vec::new(),
    }
}

#[test]
fn blocked_gate_counts_are_attributable_to_a_specific_strategy() {
    let names = texts(&["mean_reversion", "a", "b"]);
    let infos = vec![
        info(&["momentum"], None, 0, 0),
        info(&[], None, 1, 0),
        info(&[], None, 1, 0),
    ];
    let rows = blocked_by_strategy(&names, &infos);
    assert_eq!(rows.len(), 2);
    assert_eq!(rows[0].name, "a");
    assert_eq!(rows[0].timing, 1);
    assert_eq!(rows[0].momentum, 0);
    assert_eq!(rows[1].name, "b");
    assert_eq!(rows[1].timing, 1);
}

#[test]
fn a_declared_timing_floor_is_reported_beside_the_gates() {
    let c = kernel();
    let names = texts(&["fader", "plain"]);
    let infos = vec![
        Some(info(&["timing", "momentum"], Some(180), 0, 1)),
        Some(info(&[], None, 1, 0)),
    ];
    let rows = c.strategy_stats(&names, &texts(&["fader"]), &infos, &Vec::new());
    assert_eq!(rows[0].name, "fader");
    assert!(rows[0].enabled);
    assert_eq!(rows[0].exempt_gates, texts(&["timing", "momentum"]));
    assert_eq!(rows[0].timing_floor_sec, Some(180));
    assert_eq!(rows[0].exempted_timing, 1);
    assert_eq!(rows[0].blocked_timing, 0);
    assert_eq!(rows[1].name, "plain");
    assert!(!rows[1].enabled);
    assert_eq!(rows[1].timing_floor_sec, None);
    assert_eq!(rows[1].blocked_timing, 1);
    assert_eq!(rows[1].orders_placed, 0);
}

#[test]
fn what_a_strategy_holds_is_shown_beside_what_it_did() {
    let mut c = kernel();
    c.entry_placed("spread_arb");
    let names = texts(&["spread_arb", "other"]);
    let positions = vec![held("pos_1", "tok", dec(2, 0)), held("pos_2", "t2", dec(2, 0))];
    let rows = c.strategy_stats(&names, &Vec::new(), &vec![None, None], &positions);
    assert_eq!(rows[0].open_positions, 2);
    assert_eq!(rows[0].open_notional_usd, dec(16, 1));
    assert_eq!(rows[0].orders_placed, 1);
    assert_eq!(rows[1].open_positions, 0);
    assert_eq!(rows[1].open_notional_usd, dec(0, 0));
    assert!(c.checked_strategy_stats(&names, &Vec::new(), &vec![None, None], &positions).is_some());
}

#[test]
fn texts_are_sorted_by_character() {
    assert_eq!(sort_texts(texts(&["b", "a", "B", "ab"])), texts(&["B", "a", "ab", "b"]));
    assert!(sort_texts(Vec::new()).is_empty());
}

#[test]
fn the_latest_trades_are_shown() {
    let all = vec![closed("p1"), closed("p2"), closed("p3")];
    let two: Vec<String> = Core::recent_trades(&all, 2).iter().map(|p| p.id.clone()).collect();
    assert_eq!(two, texts(&["p2", "p3"]));
    assert_eq!(Core::recent_trades(&all, 9).len(), 3);
    // No limit shows them all.
    assert_eq!(Core::recent_trades(&all, 0).len(), 3);
}

#[test]
fn a_book_is_shown_to_a_depth() {
    let mut c = kernel();
    let ev = DataEvent::Book {
        token_id: "up".to_string(),
        bids: vec![(dec(43, 2), dec(100, 0)), (dec(42, 2), dec(50, 0))],
        asks: vec![(dec(45, 2), dec(10, 0))],
        now_ms: 1,
    };
    c.engine_on_data(&ev, &Vec::new(), &Vec::new());
    let v = c.book_side_view("up", metrics(), 1);
    assert_eq!(v.bids.len(), 1);
    assert_eq!(v.bids[0].price, dec(43, 2));
    assert_eq!(v.bids[0].size, dec(100, 0));
    assert_eq!(v.asks.len(), 1);
    assert_eq!(v.mid_price, Some(dec(44, 2)));
    assert_eq!(v.best_bid, Some(dec(43, 2)));
    let empty = c.book_side_view("down", metrics(), 5);
    assert!(empty.bids.is_empty());
    assert!(empty.mid_price.is_none());
    let all = c.books_view(&vec![market("BTC")], &vec![(metrics(), metrics())], 5);
    assert_eq!(all.len(), 1);
    assert_eq!(all[0].asset, "BTC");
    assert_eq!(all[0].up.bids.len(), 2);
    assert!(all[0].down.asks.is_empty());
}

#[test]
fn a_round_is_shown_with_its_prices() {
    let state = RoundState { slot: 7, age_sec: 40, time_left_sec: 860, can_trade: true };
    let markets = vec![market("BTC"), market("ETH")];
    let mids = vec![(Some(dec(55, 2)), None), (Some(dec(0, 0)), Some(dec(35, 2)))];
    let r = Core::round_view(state, &markets, &mids);
    assert_eq!(r.slot, 7);
    assert_eq!(r.age_sec, 40);
    assert_eq!(r.time_left_sec, 860);
    assert_eq!(r.markets, 2);
    assert!(r.can_trade);
    assert_eq!(r.market_prices[0].up, dec(55, 2));
    assert_eq!(r.market_prices[0].down, dec(4, 1));
    // A middle of zero is no price.
    assert_eq!(r.market_prices[1].up, dec(6, 1));
    assert_eq!(r.market_prices[1].down, dec(35, 2));
    assert_eq!(market_prices(&markets, &mids).len(), 2);
}

#[test]
fn a_position_is_shown_with_its_time_left() {
    let gains = vec![PositionGains { unrealized_pct: dec(5, 0), high_pnl_pct: dec(7, 0) }];
    let v = Core::position_views(&vec![held("pos_1", "tok", dec(2, 0))], &gains, 1_795_500);
    assert_eq!(v[0].id, "pos_1");
    assert_eq!(v[0].direction, "up");
    assert_eq!(v[0].remaining_sec, 4);
    assert_eq!(v[0].unrealized_pct, dec(5, 0));
    assert_eq!(v[0].high_pnl_pct, dec(7, 0));
    assert_eq!(v[0].entry_cost_usd, dec(8, 1));
    let late = Core::position_views(&vec![held("pos_1", "tok", dec(2, 0))], &gains, 1_801_500);
    assert_eq!(late[0].remaining_sec, -1);
}

#[test]
fn the_kernel_is_shown_as_it_stands() {
    let mut c = kernel();
    let v = c.engine_stats_at(&input(&["b", "a"]), 1_000);
    assert_eq!(v.confirmed, texts(&["a", "b"]));
    assert!(v.last_error.is_none());
    assert!(v.frozen_reason.is_none());
    assert_eq!(v.sweep_freeze_threshold, 3);
    // There is nothing to show before the first audit.
    assert!(v.audit.is_none());
    assert_eq!(v.settlement.pending_redemptions, 0);
    assert_eq!(v.settlement.receivable_usd, dec(0, 0));
    assert_eq!(v.sizing.equity_usd, dec(1000, 0));
    assert_eq!(v.exit_reasons.tracked_count, 0);
    c.note_error(&CoreError::new(CoreErrorCode::VenueError, "venue down".to_string()), 5);
    let v = c.checked_engine_stats_at(&input(&[]), 1_000).unwrap();
    assert_eq!(v.last_error_text.unwrap(), "VenueError: venue down");
    assert_eq!(v.last_error.unwrap().ts_ms, 5);
    assert!(matches!(c.checked_accounting_audit_view(), Some(None)));
    assert!(c.checked_settlement_view(1_000).is_some());
}
