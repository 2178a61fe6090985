//! Settings, starts, restarts, the day's budget, the maintenance pass and the logs.
use blitzkrieg_core::config::{
    CoreConfig, PositionConfig, RiskConfig, ShadowEvolutionTuning, ShadowSettings, SpreadArbKnobs,
    StrategyLimit,
};
use blitzkrieg_core::decimal::Decimal;
use blitzkrieg_core::journal::{frame, unframe, AppliedFillLog};
use blitzkrieg_core::lifecycle::{side_log_path, DailyRoll, DailyTrip};
use blitzkrieg_core::maintenance::TickStep;
use blitzkrieg_core::model::{
    CoreErrorCode, Event, FillPolicy, Mode, OrderRequest, OrderStatus, Side, TrackedOrder,
};
use blitzkrieg_core::service::Core;

fn dec(num: i64, scale: u32) -> Decimal {
    Decimal::new(num, scale)
}

fn settings() -> CoreConfig {
    let risk = RiskConfig {
        max_order_notional: dec(3, 0),
        max_order_notional_pct: dec(0, 0),
        max_open_notional_usd: dec(0, 0),
        max_price: dec(99, 2),
    };
    let positions = PositionConfig {
        max_daily_loss_equity_pct: dec(10, 0),
        exit_min_time_left_sec: 15,
    };
    CoreConfig::with_defaults(risk, positions, 8_000)
}

fn order(mode: FillPolicy, price: Decimal, size: Decimal, key: &str) -> OrderRequest {
    OrderRequest {
        token_id: "tok".to_string(),
        condition_id: "cond".to_string(),
        side: Side::Buy,
        mode,
        price,
        size,
        internal_key: key.to_string(),
        strategy: "spread_arb".to_string(),
        asset: "BTC".to_string(),
        direction: "up".to_string(),
        round_slot: 1,
    }
}

fn registered(id: &str, req: &OrderRequest, maker_timeout_ms: i64, now_ms: i64) -> TrackedOrder {
    TrackedOrder {
        order_id: id.to_string(),
        token_id: req.token_id.clone(),
        condition_id: req.condition_id.clone(),
        side: req.side,
        mode: req.mode,
        price: req.price,
        size: req.size,
        filled_size: dec(0, 0),
        status: OrderStatus::Pending,
        live: true,
        internal_key: req.internal_key.clone(),
        strategy: req.strategy.clone(),
        asset: req.asset.clone(),
        direction: req.direction.clone(),
        round_slot: req.round_slot,
        submitted_at_ms: now_ms,
        updated_at_ms: now_ms,
        maker_timeout_ms,
        escalate_at_ms: None,
        venue_order_id: None,
    }
}

fn text(s: &str) -> Option<String> {
    Some(s.to_string())
}

fn alerts(events: &Vec<Event>) -> Vec<String> {
    let mut out = Vec::new();
    for e in events {
        match e {
            Event::RiskAlert { code: _, message } => out.push(message.clone()),
            other => panic!("{other:?}"),
        }
    }
    out
}

fn shipped_knobs() -> SpreadArbKnobs {
    SpreadArbKnobs {
        trend_confirm_sec: 60,
        trend_entry_factor: dec(88, 2),
        entry_min_obi: dec(1, 1),
        entry_max_spread_pct: dec(3, 0),
        entry_dip_max_pct: dec(5, 0),
        entry_bounce_min_pct: dec(3, 1),
        entry_bounce_window_sec: 5,
    }
}

#[test]
fn spread_arb_entry_overrides_flow_through_engine_config() {
    let k = settings().engine_config(shipped_knobs()).spread_arb;
    assert_eq!(k.trend_confirm_sec, 60);
    assert_eq!(k.trend_entry_factor, dec(88, 2));
    assert_eq!(k.entry_min_obi, dec(1, 1));
    assert_eq!(k.entry_max_spread_pct, dec(3, 0));
    assert_eq!(k.entry_dip_max_pct, dec(5, 0));
    assert_eq!(k.entry_bounce_min_pct, dec(3, 1));
    assert_eq!(k.entry_bounce_window_sec, 5);
    let mut c = settings();
    c.trend_confirm_sec = 90;
    c.spread_arb_trend_entry_factor = Some(dec(8, 1));
    c.spread_arb_entry_min_obi = Some(dec(-1, 1));
    c.spread_arb_entry_max_spread_pct = Some(dec(25, 1));
    c.spread_arb_entry_dip_max_pct = Some(dec(6, 0));
    c.spread_arb_entry_bounce_min_pct = Some(dec(4, 1));
    c.spread_arb_entry_bounce_window_sec = Some(7);
    let k = c.engine_config(shipped_knobs()).spread_arb;
    assert_eq!(k.trend_confirm_sec, 90);
    assert_eq!(k.trend_entry_factor, dec(8, 1));
    assert_eq!(k.entry_min_obi, dec(-1, 1));
    assert_eq!(k.entry_max_spread_pct, dec(25, 1));
    assert_eq!(k.entry_dip_max_pct, dec(6, 0));
    assert_eq!(k.entry_bounce_min_pct, dec(4, 1));
    assert_eq!(k.entry_bounce_window_sec, 7);
}

#[test]
fn the_engine_takes_its_settings_from_the_kernel() {
    let mut c = settings();
    let limit = StrategyLimit {
        max_open_positions: Some(2),
        max_open_notional_usd: None,
        size_usd: Some(dec(5, 0)),
        min_shares: None,
        max_shares: Some(dec(20, 0)),
        size_weight: None,
        size_pct: None,
    };
    c.strategy_limits.insert("fader".to_string(), limit);
    let e = c.engine_config(shipped_knobs());
    assert_eq!(e.assets, c.assets);
    assert_eq!(e.round_duration_sec, 900);
    assert_eq!(e.min_round_age_sec, 30);
    assert_eq!(e.min_time_left_sec, 15);
    assert_eq!(e.trend_confirm_sec, 60);
    assert_eq!(e.trend_window_floor_ms, 10_000);
    assert_eq!(e.size_usd, dec(25, 1));
    assert_eq!(e.min_shares, dec(10, 0));
    assert_eq!(e.max_shares, dec(10, 0));
    assert_eq!(e.size_pct, dec(0, 0));
    assert_eq!(e.max_orderbook_stale_ms, 8_000);
    assert_eq!(e.strategy_sizes.len(), 1);
    let s = e.strategy_sizes.get("fader").unwrap();
    assert_eq!(s.size_usd, Some(dec(5, 0)));
    assert_eq!(s.max_shares, Some(dec(20, 0)));
    assert_eq!(s.min_shares, None);
}

fn shadow_defaults() -> ShadowSettings {
    ShadowSettings {
        enabled: false,
        min_sample_count: 30,
        min_win_rate_improvement: dec(5, 0),
        min_profit_factor_improvement: dec(2, 1),
        min_observation_secs: 3_600,
        cooldown_secs: 1_800,
        variant_count: 4,
        evaluation_window_secs: 7_200,
        max_gradient: dec(1, 1),
        audit_dir: "data/evolution".to_string(),
        auto_evolve: false,
        evolution_cycle_secs: 600,
        proposal_ttl_secs: 86_400,
        deep_dims: 2,
    }
}

fn no_tuning() -> ShadowEvolutionTuning {
    ShadowEvolutionTuning {
        min_sample_count: None,
        min_win_rate_improvement: None,
        min_profit_factor_improvement: None,
        min_observation_secs: None,
        cooldown_secs: None,
        variant_count: None,
        evaluation_window_secs: None,
        max_gradient: None,
        audit_dir: None,
        auto_evolve: None,
        evolution_cycle_secs: None,
        proposal_ttl_secs: None,
        deep_dims: None,
    }
}

#[test]
fn tuning_never_widens_the_step() {
    let mut c = settings();
    c.shadow_evolution_enabled = true;
    let s = c.shadow_settings(shadow_defaults(), dec(2, 1));
    assert!(s.enabled);
    assert_eq!(s.max_gradient, dec(1, 1));
    let mut t = no_tuning();
    t.max_gradient = Some(dec(5, 1));
    t.deep_dims = Some(0);
    t.min_sample_count = Some(50);
    t.audit_dir = text("elsewhere");
    c.shadow_evolution_tuning = Some(t);
    let s = c.shadow_settings(shadow_defaults(), dec(2, 1));
    assert_eq!(s.max_gradient, dec(2, 1));
    assert_eq!(s.deep_dims, 1);
    assert_eq!(s.min_sample_count, 50);
    assert_eq!(s.audit_dir, "elsewhere");
    assert_eq!(s.cooldown_secs, 1_800);
    let mut t = no_tuning();
    t.max_gradient = Some(dec(5, 2));
    t.deep_dims = Some(3);
    c.shadow_evolution_tuning = Some(t);
    let s = c.shadow_settings(shadow_defaults(), dec(2, 1));
    assert_eq!(s.max_gradient, dec(5, 2));
    assert_eq!(s.deep_dims, 3);
}

#[test]
fn a_kernel_starts_with_nothing_counted() {
    let c = Core::new(settings(), None, 77);
    assert_eq!(c.mode(), Mode::Dry);
    assert_eq!(c.started_at_ms(), 77);
    assert_eq!(c.opening_cash(), Some(dec(10_000, 0)));
    assert_eq!(c.config().default_maker_timeout_ms, 5_000);
    assert_eq!(c.stats.books, 0);
    assert!(c.last_error.is_none());
    assert_eq!(c.next_id, 1);
    let mut live = settings();
    live.mode = Mode::Live;
    assert_eq!(Core::new(live, None, 0).opening_cash(), None);
}

#[test]
fn a_log_belongs_beside_the_order_log() {
    let beside = || text("data/orders/settlements.jsonl");
    assert_eq!(side_log_path(&text("x.jsonl"), &text("o.jsonl"), beside()), text("x.jsonl"));
    assert_eq!(side_log_path(&text("x.jsonl"), &None, beside()), text("x.jsonl"));
    assert_eq!(side_log_path(&None, &text("o.jsonl"), beside()), beside());
    assert_eq!(side_log_path(&None, &None, beside()), None);
}

#[test]
fn orders_are_taken_up_with_what_they_commit() {
    let c = Core::new(settings(), None, 0);
    let mut buy = registered("o1", &order(FillPolicy::Maker, dec(40, 2), dec(10, 0), "k1"), 0, 1);
    buy.filled_size = dec(4, 0);
    let mut sell = registered("o2", &order(FillPolicy::Maker, dec(60, 2), dec(5, 0), "k2"), 0, 1);
    sell.side = Side::Sell;
    let mut gone = registered("o3", &order(FillPolicy::Maker, dec(40, 2), dec(5, 0), "k3"), 0, 1);
    gone.live = false;
    gone.status = OrderStatus::Cancelled;
    let loaded = vec![buy, sell, gone];
    let r = c.restore_orders(3, "applied.jsonl", &loaded);
    let ids: Vec<&str> = r.live.iter().map(|o| o.order_id.as_str()).collect();
    assert_eq!(ids, vec!["o1", "o2"]);
    assert_eq!(r.reservations, vec![("o1".to_string(), dec(24, 1))]);
    assert_eq!(
        alerts(&r.events),
        vec![
            "restored 3 applied-fill key(s) from applied.jsonl after restart (duplicate venue \
             trades stay idempotent)",
            "recovered 2 live order(s) from the order log after restart (2.40 of BUY notional \
             re-reserved)",
        ]
    );
    assert!(c.restore_orders(0, "", &Vec::new()).events.is_empty());
    let huge = Decimal::from_i128_with_scale(79_228_162_514_264_337_593_543_950_335, 0);
    let wide = registered("o4", &order(FillPolicy::Maker, huge, dec(2, 0), "k4"), 0, 1);
    assert!(c.checked_restore_orders(0, "", &vec![wide]).is_none());
    assert!(c.checked_restore_orders(0, "", &loaded).is_some());
}

#[test]
fn positions_are_taken_up_with_their_mark() {
    let mut c = Core::new(settings(), None, 0);
    assert!(c.restore_positions(55, 0).is_empty());
    assert_eq!(c.recon_watermark_ms, 55);
    assert_eq!(
        alerts(&c.restore_positions(60, 2)),
        vec!["recovered 2 open position(s) from the position log after restart"]
    );
    assert_eq!(
        alerts(&c.note_orphan_cancelled("0xabc")),
        vec!["cancelled resting venue order 0xabc"]
    );
}

#[test]
fn a_day_that_begins_is_told() {
    let c = Core::new(settings(), None, 0);
    assert!(c.roll_daily_budget(None).is_empty());
    let mut roll = DailyRoll {
        previous_day_index: None,
        previous_realized_pnl_usd: dec(0, 0),
        previous_tripped: false,
        day_index: 20_000,
        opening_equity_usd: dec(1000, 0),
        limit_usd: dec(100, 0),
    };
    assert_eq!(
        alerts(&c.roll_daily_budget(Some(roll))),
        vec![
            "daily loss budget: UTC day 20000 opens with equity $1000, cap $100 (realized loss \
             resets at the UTC day boundary)"
        ]
    );
    roll.previous_day_index = Some(19_999);
    roll.previous_realized_pnl_usd = dec(-1005, 1);
    roll.previous_tripped = true;
    assert_eq!(
        alerts(&c.roll_daily_budget(Some(roll))),
        vec![
            "daily loss budget: UTC day 19999 closed at $-100.5 realized (TRIPPED: entries were \
             frozen) — day 20000 opens with equity $1000, cap $100"
        ]
    );
}

#[test]
fn a_spent_budget_is_told() {
    let c = Core::new(settings(), None, 0);
    assert!(c.emit_daily_trip(None).is_empty());
    let trip = DailyTrip {
        realized_pnl_usd: dec(-101, 0),
        limit_usd: dec(100, 0),
        opening_equity_usd: dec(1000, 0),
    };
    assert_eq!(
        alerts(&c.emit_daily_trip(Some(trip))),
        vec![
            "DAILY LOSS LIMIT REACHED: realized $-101 against a $100 cap (10% of the day's \
             opening equity $1000) — new entries are frozen until the next UTC day (positions \
             still exit normally)"
        ]
    );
    assert_eq!(
        alerts(&c.emit_suppressed_stops(vec!["a".to_string(), "b".to_string()])),
        vec!["a", "b"]
    );
    let e = c.tell_breaker_resumed("fader");
    assert!(matches!(&e[0], Event::RiskAlert { code: CoreErrorCode::RiskRejected, message: _ }));
    assert_eq!(
        alerts(&e),
        vec!["breaker cooldown elapsed — resuming new entries for strategy fader"]
    );
}

#[test]
fn a_pass_takes_its_steps_in_order() {
    let mut c = Core::new(settings(), None, 0);
    let now: i64 = 1_000_000;
    assert_eq!(
        c.tick(now),
        vec![
            TickStep::RetryFills,
            TickStep::Settle,
            TickStep::TellSilence,
            TickStep::Audit,
            TickStep::ResumeEntries,
            TickStep::RollDay,
            TickStep::TellTrip,
            TickStep::CheckExits,
            TickStep::TellWithheldStops,
            TickStep::Escalate,
        ]
    );
    c.config.mode = Mode::Live;
    c.config.event_archive_path = text("archive.jsonl");
    c.config.near_miss_path = text("near.jsonl");
    c.audit.last_at_ms = now - 1_000;
    assert_eq!(
        c.tick(now),
        vec![
            TickStep::FlushArchive,
            TickStep::RetryFills,
            TickStep::TellSilence,
            TickStep::ResumeEntries,
            TickStep::SaveNearMisses,
            TickStep::RollDay,
            TickStep::TellTrip,
            TickStep::CheckExits,
            TickStep::TellWithheldStops,
            TickStep::Escalate,
        ]
    );
}

#[test]
fn records_are_written_and_read_back() {
    let records = vec!["{\"a\":1}".to_string(), "{\"b\":\"ü\"}".to_string()];
    let s = frame(&records);
    assert_eq!(s, "{\"a\":1}\n{\"b\":\"ü\"}\n");
    assert_eq!(unframe(&s), records);
    assert_eq!(unframe("\n  \n a \t\r\n\nb"), vec!["a".to_string(), "b".to_string()]);
    assert!(unframe("").is_empty());
    let log = AppliedFillLog::new("applied.jsonl".to_string());
    assert_eq!(log.path(), "applied.jsonl");
}
