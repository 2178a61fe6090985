//! Caps, sizes and the changes of limits.
use blitzkrieg_core::config::{CoreConfig, PositionConfig, RiskConfig, StrategyLimit};
use blitzkrieg_core::decimal::Decimal;
use blitzkrieg_core::limits::{
    checked_portfolio_limit_ok, checked_strategy_limit_ok, portfolio_limit_ok, strategy_limit_ok,
    EffectiveSizing, RiskLimitPatch,
};
use blitzkrieg_core::model::{
    CashFlows, CoreError, CoreErrorCode, FillPolicy, OpenPosition, OrderRequest, OrderRole, Side,
    SignalDirection,
};
use blitzkrieg_core::service::Core;
use blitzkrieg_core::views::StrategyInfo;

fn dec(num: i64, scale: u32) -> Decimal {
    Decimal::new(num, scale)
}

fn no_limit() -> StrategyLimit {
    StrategyLimit {
        max_open_positions: None,
        max_open_notional_usd: None,
        size_usd: None,
        min_shares: None,
        max_shares: None,
        size_weight: None,
        size_pct: None,
    }
}

fn core_with(limits: Vec<(&str, StrategyLimit)>) -> Core {
    let risk = RiskConfig {
        max_order_notional: dec(100, 0),
        max_order_notional_pct: dec(0, 0),
        max_open_notional_usd: dec(0, 0),
        max_price: dec(99, 2),
    };
    let positions = PositionConfig {
        max_daily_loss_equity_pct: dec(0, 0),
        exit_min_time_left_sec: 0,
    };
    let mut c = CoreConfig::with_defaults(risk, positions, 8_000);
    for (name, limit) in limits {
        c.strategy_limits.insert(name.to_string(), limit);
    }
    Core::new(c, None, 0)
}

/// An entry of 0.43 a share, ten shares: 4.30 in all.
fn entry(strategy: &str) -> OrderRequest {
    OrderRequest {
        token_id: "up".to_string(),
        condition_id: "cond".to_string(),
        side: Side::Buy,
        mode: FillPolicy::MakerThenTaker,
        price: dec(43, 2),
        size: dec(10, 0),
        internal_key: "k".to_string(),
        strategy: strategy.to_string(),
        asset: "BTC".to_string(),
        direction: "up".to_string(),
        round_slot: 1,
    }
}

fn held(strategy: &str, cost: Decimal) -> OpenPosition {
    OpenPosition {
        id: "pos_1".to_string(),
        strategy: strategy.to_string(),
        asset: "BTC".to_string(),
        direction: SignalDirection::Up,
        token_id: "tok".to_string(),
        condition_id: "cond".to_string(),
        entry_price: dec(40, 2),
        current_price: dec(40, 2),
        prev_price: dec(40, 2),
        shares: dec(10, 0),
        cost_usd: cost,
        was_maker_entry: false,
        entry_fee_pct: dec(0, 0),
        entry_role: OrderRole::Taker,
        exit_role: OrderRole::Taker,
        target_exit_price: None,
        entered_at_ms: 1,
        expires_at_ms: 1_800_000,
        last_book_ts: 0,
        flows: CashFlows {
            entry_cost_usd: cost,
            entry_fee_usd: dec(0, 0),
            exit_fee_usd: dec(0, 0),
            proceeds_usd: dec(0, 0),
            opened_shares: dec(10, 0),
        },
    }
}

fn told(source: &str, sizing: EffectiveSizing) -> Option<StrategyInfo> {
    Some(StrategyInfo {
        source: source.to_string(),
        sizing,
        entry_budget_usd: dec(96, 2),
        exempt_gates: vec!["timing".to_string()],
        timing_floor_sec: Some(180),
        blocked_timing: 1,
        blocked_momentum: 0,
        exempted_timing: 2,
        exempted_momentum: 0,
    })
}

#[test]
fn default_config_has_no_limits_and_places_the_entry() {
    let mut c = core_with(vec![]);
    assert!(c.admit_entry(&entry("spread_arb"), &Vec::new()).is_ok());
    c.entry_placed("spread_arb");
    assert_eq!(c.stats.strategy_limit_rejected, 0);
    let sizing = c.configured_sizing();
    let names = vec!["spread_arb".to_string()];
    let rows = c.strategy_stats(
        &names,
        &names,
        &vec![told("test", sizing)],
        &vec![held("spread_arb", dec(390, 2))],
    );
    let s = &rows[0];
    assert!(s.enabled);
    assert_eq!(s.source, "test");
    assert_eq!(s.orders_placed, 1);
    assert_eq!(s.open_positions, 1);
    assert_eq!(s.open_notional_usd, dec(390, 2));
}

#[test]
fn strategy_position_cap_rejects_the_entry_and_is_counted() {
    let limit = StrategyLimit { max_open_positions: Some(0), ..no_limit() };
    let mut c = core_with(vec![("spread_arb", limit)]);
    assert!(c.admit_entry(&entry("spread_arb"), &Vec::new()).is_err());
    assert_eq!(c.stats.strategy_limit_rejected, 1);
    let a = c.strategy_accounting.get("spread_arb").unwrap();
    assert_eq!(a.limit_rejected, 1);
    assert_eq!(a.placed, 0);
}

#[test]
fn rejection_causes_report_position_cap_bucket() {
    let limit = StrategyLimit { max_open_positions: Some(0), ..no_limit() };
    let mut c = core_with(vec![("spread_arb", limit)]);
    assert!(c.admit_entry(&entry("spread_arb"), &Vec::new()).is_err());
    let names = vec!["spread_arb".to_string()];
    let rows = c.strategy_stats(&names, &names, &vec![None], &Vec::new());
    assert_eq!(rows[0].rejection_causes, vec![("limit.positionCap".to_string(), 1)]);
    assert_eq!(rows[0].orders_rejected, 0);
    let clean = core_with(vec![]);
    let rows = clean.strategy_stats(&names, &names, &vec![None], &Vec::new());
    assert!(rows[0].rejection_causes.is_empty());
}

#[test]
fn rejection_causes_report_per_order_cap_risk_bucket() {
    let mut c = core_with(vec![]);
    let refusal = CoreError::new(
        CoreErrorCode::RiskRejected,
        "notional 4.30 exceeds per-order cap 1".to_string(),
    );
    c.entry_refused("spread_arb", &refusal);
    let a = c.strategy_accounting.get("spread_arb").unwrap();
    assert_eq!(a.rejected, 1);
    assert_eq!(a.rejection_causes.get("risk.perOrderCap"), Some(&1));
    assert_eq!(c.stats.place_rejected, 1);
}

#[test]
fn strategy_notional_cap_blocks_below_and_passes_above_the_entry() {
    let tight = StrategyLimit { max_open_notional_usd: Some(dec(1, 0)), ..no_limit() };
    let mut c = core_with(vec![("spread_arb", tight)]);
    let why = c.admit_entry(&entry("spread_arb"), &Vec::new()).unwrap_err();
    assert!(why.contains("notional cap"), "{why}");
    assert_eq!(c.stats.strategy_limit_rejected, 1);
    let a = c.strategy_accounting.get("spread_arb").unwrap();
    assert_eq!(a.rejection_causes.get("limit.notionalCap"), Some(&1));

    let loose = StrategyLimit { max_open_notional_usd: Some(dec(10, 0)), ..no_limit() };
    let mut c2 = core_with(vec![("spread_arb", loose)]);
    assert!(c2.admit_entry(&entry("spread_arb"), &Vec::new()).is_ok());
    assert_eq!(c2.stats.strategy_limit_rejected, 0);
}

#[test]
fn portfolio_notional_cap_bounds_total_open_exposure() {
    let mut c = core_with(vec![]);
    c.config.risk.max_open_notional_usd = dec(2, 0);
    assert!(c.admit_entry(&entry("spread_arb"), &Vec::new()).is_err());
    assert_eq!(c.stats.strategy_limit_rejected, 1);
    let a = c.strategy_accounting.get("spread_arb").unwrap();
    assert_eq!(a.rejection_causes.get("limit.portfolioNotionalCap"), Some(&1));

    let mut c2 = core_with(vec![]);
    assert!(c2.admit_entry(&entry("spread_arb"), &Vec::new()).is_ok());
    assert_eq!(c2.stats.strategy_limit_rejected, 0);
}

#[test]
fn per_strategy_quota_is_independent_across_strategies() {
    let limit = StrategyLimit {
        max_open_positions: Some(0),
        size_usd: Some(dec(1, 0)),
        min_shares: Some(dec(2, 0)),
        max_shares: Some(dec(2, 0)),
        ..no_limit()
    };
    let mut c = core_with(vec![("capped", limit)]);
    c.engine_evaluate(Vec::new(), 3);
    assert!(c.admit_entry(&entry("capped"), &Vec::new()).is_err());
    assert!(c.admit_entry(&entry("capped"), &Vec::new()).is_err());
    assert!(c.admit_entry(&entry("other"), &Vec::new()).is_ok());
    c.entry_placed("other");
    assert_eq!(c.stats.signals, 3);
    assert_eq!(c.stats.evaluations, 1);
    assert_eq!(c.stats.strategy_limit_rejected, 2);

    let names = vec!["capped".to_string(), "other".to_string()];
    let sizing = EffectiveSizing { max_shares: dec(2, 0), ..c.configured_sizing() };
    let rows = c.strategy_stats(&names, &names, &vec![told("test", sizing), None], &Vec::new());
    assert_eq!(rows[0].orders_placed, 0);
    assert_eq!(rows[0].limit_rejected, 2);
    assert_eq!(rows[0].max_open_positions, Some(0));
    assert_eq!(rows[0].sizing.max_shares, dec(2, 0));
    assert_eq!(rows[1].orders_placed, 1);
    assert_eq!(rows[1].limit_rejected, 0);
    assert_eq!(rows[1].max_open_positions, None);
    assert_eq!(rows[1].sizing.size_usd, dec(25, 1));
}

#[test]
fn a_strategy_cap_counts_only_its_own_open_positions() {
    let limit = StrategyLimit { max_open_positions: Some(1), ..no_limit() };
    let mut c = core_with(vec![("capped", limit)]);
    let others = vec![held("other", dec(4, 0)), held("other", dec(4, 0))];
    assert!(c.admit_entry(&entry("capped"), &others).is_ok());
    let own = vec![held("other", dec(4, 0)), held("capped", dec(4, 0))];
    assert!(c.admit_entry(&entry("capped"), &own).is_err());
    assert!(c.admit_entry(&entry("other"), &own).is_ok());
}

#[test]
fn a_cap_names_what_is_held_and_what_would_come() {
    let positions = vec![held("a", dec(4, 0))];
    let e = portfolio_limit_ok(dec(8, 0), &positions, &entry("a")).unwrap_err();
    assert!(e.contains('4') && e.contains("8"), "{e}");
    assert!(portfolio_limit_ok(dec(9, 0), &positions, &entry("a")).is_ok());
    let limit = StrategyLimit { max_open_notional_usd: Some(dec(83, 1)), ..no_limit() };
    assert!(strategy_limit_ok(&limit, &positions, &entry("a")).is_ok());
    let limit = StrategyLimit { max_open_notional_usd: Some(dec(829, 2)), ..no_limit() };
    assert!(strategy_limit_ok(&limit, &positions, &entry("a")).is_err());
}

#[test]
fn an_exposure_beyond_the_range_is_not_judged() {
    let huge = Decimal::from_i128_with_scale(79_228_162_514_264_337_593_543_950_335, 0);
    let positions = vec![held("a", huge)];
    assert!(checked_portfolio_limit_ok(dec(8, 0), &positions, &entry("a")).is_none());
    assert!(checked_portfolio_limit_ok(dec(0, 0), &positions, &entry("a")).is_some());
    let limit = StrategyLimit { max_open_notional_usd: Some(dec(8, 0)), ..no_limit() };
    assert!(checked_strategy_limit_ok(&limit, &positions, &entry("a")).is_none());
    assert!(checked_strategy_limit_ok(&limit, &positions, &entry("b")).is_some());
    let mut c = core_with(vec![("a", limit)]);
    assert!(c.checked_admit_entry(&entry("a"), &positions).is_none());
    assert_eq!(c.stats.strategy_limit_rejected, 0);
    assert!(c.checked_admit_entry(&entry("b"), &positions).unwrap().is_ok());
}

#[test]
fn the_worst_case_of_an_order_is_its_tightest_bound() {
    let mut c = core_with(vec![]);
    let g = EffectiveSizing {
        size_usd: dec(25, 1),
        min_shares: dec(1, 0),
        max_shares: dec(1000, 0),
        size_pct: dec(20, 0),
        strategy_scoped: false,
        size_weight: None,
    };
    let v = c.sizing_view(dec(48, 1), Some(g));
    assert_eq!(v.share_band_usd, dec(990, 0));
    assert_eq!(v.size_budget_usd, Some(dec(96, 2)));
    assert_eq!(v.equity_cap_usd, None);
    assert_eq!(v.worst_case_order_usd, dec(96, 2));
    assert_eq!(v.worst_case_pct_of_equity, Some(dec(20, 0)));
    c.config.risk.max_order_notional_pct = dec(10, 0);
    let v = c.sizing_view(dec(48, 1), Some(g));
    assert_eq!(v.worst_case_order_usd, dec(48, 2));
    // Without equity no percentage bounds anything.
    let v = c.sizing_view(dec(0, 0), Some(g));
    assert_eq!(v.worst_case_order_usd, dec(990, 0));
    assert_eq!(v.worst_case_pct_of_equity, None);
    // Without an engine the settings count.
    let v = c.sizing_view(dec(0, 0), None);
    assert_eq!(v.share_band_usd, dec(990, 2));
    let huge = Decimal::from_i128_with_scale(79_228_162_514_264_337_593_543_950_335, 0);
    assert!(c.checked_sizing_view(huge, Some(g)).is_none());
    assert!(c.checked_sizing_view(dec(48, 1), None).is_some());
}

fn no_patch() -> RiskLimitPatch {
    RiskLimitPatch {
        max_order_notional: None,
        max_order_notional_pct: None,
        max_open_notional_usd: None,
        min_shares: None,
        max_shares: None,
        reason: None,
    }
}

#[test]
fn a_change_of_limits_is_taken_or_refused_as_a_whole() {
    let mut c = core_with(vec![]);
    let patch = RiskLimitPatch { max_order_notional: Some(dec(7, 0)), ..no_patch() };
    let update = c.apply_risk_limits(&patch, "op", 9).unwrap();
    assert_eq!(c.config.risk.max_order_notional, dec(7, 0));
    assert_eq!(update.applied.len(), 1);
    assert_eq!(update.applied[0].field.name(), "maxOrderNotional");
    assert_eq!(update.applied[0].from, dec(100, 0));
    assert_eq!(update.applied[0].to, dec(7, 0));
    assert!(!update.persisted && !update.band_moved);
    let patch = RiskLimitPatch { min_shares: Some(dec(99, 0)), ..no_patch() };
    assert!(c.apply_risk_limits(&patch, "op", 9).is_err(), "the band would be upside down");
    let patch = RiskLimitPatch {
        max_order_notional: Some(dec(8, 0)),
        max_open_notional_usd: Some(dec(-1, 0)),
        ..no_patch()
    };
    let e = c.apply_risk_limits(&patch, "op", 9).unwrap_err();
    assert_eq!(e.code, CoreErrorCode::InvalidParams);
    assert_eq!(c.config.risk.max_order_notional, dec(7, 0));
    assert!(c.apply_risk_limits(&no_patch(), "op", 9).is_err());
}
