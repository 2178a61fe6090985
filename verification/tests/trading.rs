//! Refusals, freezes, cancels and resting orders.
use blitzkrieg_core::config::{CoreConfig, PositionConfig, RiskConfig};
use blitzkrieg_core::decimal::Decimal;
use blitzkrieg_core::exits::ExitJob;
use blitzkrieg_core::fees::FeeSchedule;
use blitzkrieg_core::fills::{reservation_target, CashMove, FillDelta};
use blitzkrieg_core::maintenance::{authoritative_fill, FillStatus, Repair, SweepReport};
use blitzkrieg_core::model::{
    CashFlows, CoreError, CoreErrorCode, EquityBasis, Event, ExitReason, FillPolicy, Mode,
    OpenPosition, OrderRequest, OrderRole, OrderStatus, Side, SignalDirection, TrackedOrder,
};
use blitzkrieg_core::orders::{extreme_price, EscalationStep};
use blitzkrieg_core::placing::{try_maker_fill, GateAnswers, Submitted, TakerView};
use blitzkrieg_core::rejections::{classify_rejection, is_close_intent, reject_backoff_ms};
use blitzkrieg_core::service::{Core, SelfCheckItem, SelfCheckReport};

fn dec(num: i64, scale: u32) -> Decimal {
    Decimal::new(num, scale)
}

fn config(mode: Mode) -> CoreConfig {
    let risk = RiskConfig {
        max_order_notional: dec(3, 0),
        max_order_notional_pct: dec(0, 0),
        max_open_notional_usd: dec(0, 0),
        max_price: dec(99, 2),
    };
    let positions = PositionConfig {
        max_daily_loss_equity_pct: dec(0, 0),
        exit_min_time_left_sec: 0,
    };
    let mut c = CoreConfig::with_defaults(risk, positions, 8_000);
    c.mode = mode;
    c
}

fn dry_core() -> Core {
    Core::new(config(Mode::Dry), None, 0)
}

fn live_core() -> Core {
    Core::new(config(Mode::Live), None, 0)
}

fn order(mode: FillPolicy, price: Decimal, size: Decimal, key: &str) -> OrderRequest {
    OrderRequest {
        token_id: "tok".to_string(),
        condition_id: "cond".to_string(),
        side: Side::Buy,
        mode,
        price,
        size,
        internal_key: key.to_string(),
        strategy: "spread_arb".to_string(),
        asset: "BTC".to_string(),
        direction: "up".to_string(),
        round_slot: 1,
    }
}

fn registered(id: &str, req: &OrderRequest, maker_timeout_ms: i64, now_ms: i64) -> TrackedOrder {
    TrackedOrder {
        order_id: id.to_string(),
        token_id: req.token_id.clone(),
        condition_id: req.condition_id.clone(),
        side: req.side,
        mode: req.mode,
        price: req.price,
        size: req.size,
        filled_size: dec(0, 0),
        status: OrderStatus::Pending,
        live: true,
        internal_key: req.internal_key.clone(),
        strategy: req.strategy.clone(),
        asset: req.asset.clone(),
        direction: req.direction.clone(),
        round_slot: req.round_slot,
        submitted_at_ms: now_ms,
        updated_at_ms: now_ms,
        maker_timeout_ms,
        escalate_at_ms: None,
        venue_order_id: None,
    }
}

fn open_gates() -> GateAnswers {
    GateAnswers {
        risk: None,
        breaker_until_ms: None,
        cannot_open: None,
        holds_to_settlement: false,
    }
}

fn held(id: &str, token: &str, shares: Decimal) -> OpenPosition {
    OpenPosition {
        id: id.to_string(),
        strategy: "spread_arb".to_string(),
        asset: "BTC".to_string(),
        direction: SignalDirection::Up,
        token_id: token.to_string(),
        condition_id: "cond".to_string(),
        entry_price: dec(40, 2),
        current_price: dec(40, 2),
        prev_price: dec(40, 2),
        shares,
        cost_usd: dec(80, 2),
        was_maker_entry: false,
        entry_fee_pct: dec(0, 0),
        entry_role: OrderRole::Taker,
        exit_role: OrderRole::Taker,
        target_exit_price: None,
        entered_at_ms: 1,
        expires_at_ms: 1_800_000,
        last_book_ts: 0,
        flows: CashFlows {
            entry_cost_usd: dec(80, 2),
            entry_fee_usd: dec(0, 0),
            exit_fee_usd: dec(0, 0),
            proceeds_usd: dec(0, 0),
            opened_shares: shares,
        },
    }
}

fn venue_down() -> CoreError {
    CoreError::new(CoreErrorCode::VenueError, "venue down".to_string())
}

fn auth_failed() -> CoreError {
    CoreError::new(CoreErrorCode::NotAuthenticated, "auth failed".to_string())
}

/// What a fill of an order leaves behind.
struct Taken {
    cash: Decimal,
    reserved: Decimal,
    filled: Decimal,
}

/// Fills an order that reserved its whole cost.
fn taken(
    c: &Core,
    cash: Decimal,
    o: &TrackedOrder,
    size: Decimal,
    price: Decimal,
    fee_pct: Decimal,
) -> Taken {
    let mut o = o.clone();
    let d = FillDelta {
        order_id: o.order_id.clone(),
        trade_id: "t".to_string(),
        token_id: o.token_id.clone(),
        condition_id: o.condition_id.clone(),
        side: o.side,
        price,
        limit_price: o.price,
        delta: size,
        role: OrderRole::Taker,
        strategy: o.strategy.clone(),
        asset: o.asset.clone(),
        direction: o.direction.clone(),
        round_slot: o.round_slot,
    };
    let schedule = FeeSchedule {
        name: "legacy_quadratic".to_string(),
        rate: dec(125, 3),
        exponent: 2,
    };
    let mut cash = cash;
    for m in c.fill_cash(&d, &schedule, &schedule, fee_pct).moves {
        cash = match m {
            CashMove::Buy { paid, .. } => cash.minus(paid),
            CashMove::Fee { fee_usd } => cash.minus(fee_usd),
            CashMove::Sell { received, fee_usd } => cash.plus(received).minus(fee_usd),
        };
    }
    o.filled_size = o.filled_size.plus(size);
    let remaining = o.size.minus(o.filled_size);
    o.live = remaining.is_positive();
    let reserved = reservation_target(Some(&o), remaining);
    Taken { cash, reserved, filled: o.filled_size }
}

fn nothing_rests() -> TakerView {
    TakerView { fill_price: None, crosses: false, depth: dec(0, 0), best: None }
}

#[test]
fn the_daily_budget_basis_follows_the_mode() {
    assert_eq!(dry_core().equity_basis(), EquityBasis::Dry);
    assert_eq!(live_core().equity_basis(), EquityBasis::Live);
    // A read-only kernel settles by itself, so its money is simulated too.
    let read_only = Core::new(config(Mode::ReadOnly), None, 0);
    assert_eq!(read_only.equity_basis(), EquityBasis::Dry);
}

#[test]
fn taker_fills_immediately_and_spends() {
    let mut c = dry_core();
    let req = order(FillPolicy::Taker, dec(4, 1), dec(5, 0), "k1");
    let id = c.new_order_id();
    assert_eq!(id, "dry_1");
    let o = registered(&id, &req, 0, 1);
    let view = TakerView {
        fill_price: Some(dec(40, 2)),
        crosses: true,
        depth: dec(100, 0),
        best: Some(dec(40, 2)),
    };
    let (done, events) = c.place_after_submit(&o, view, 0, 1);
    let (size, price) = match done {
        Submitted::Fills { trade_id, size, price } => {
            assert_eq!(trade_id, "dry_1:1");
            (size, price)
        }
        other => panic!("{other:?}"),
    };
    assert_eq!(price, dec(4, 1));
    assert!(events.is_empty());
    assert!(c.last_error.is_none());
    // 10 less 0.4 * 5, less the taker's fee of 1.8 % of 2; the reservation is used up.
    let desk = taken(&c, dec(10, 0), &o, size, price, dec(18, 1));
    assert_eq!(desk.filled, dec(5, 0));
    assert_eq!(desk.cash, dec(7964, 3));
    assert_eq!(desk.reserved, dec(0, 0));
}

#[test]
fn taker_not_crossing_the_book_is_rejected() {
    let mut c = dry_core();
    let req = order(FillPolicy::Taker, dec(4, 1), dec(5, 0), "k1");
    let o = registered("dry_1", &req, 0, 1);
    let view = TakerView {
        fill_price: None,
        crosses: false,
        depth: dec(0, 0),
        best: Some(dec(50, 2)),
    };
    let (done, events) = c.place_after_submit(&o, view, 0, 1);
    let error = match done {
        Submitted::Refused { error, release } => {
            assert!(release, "a buy gives its reservation back");
            error
        }
        other => panic!("{other:?}"),
    };
    assert_eq!(error.code, CoreErrorCode::WouldCross);
    assert!(error.message.starts_with("taker_no_crossing_liquidity:"), "{}", error.message);
    assert!(error.message.contains("0.50"), "{}", error.message);
    let last = c.last_error.as_ref().unwrap();
    assert_eq!(last.code, CoreErrorCode::WouldCross);
    assert_eq!(last.message, error.message);
    assert_eq!(last.ts_ms, 1);
    assert_eq!(events.len(), 1);
    assert_eq!(
        error.message,
        "taker_no_crossing_liquidity: no ask at or inside the 0.4 buy limit (best ask 0.50; \
         token tok, size 5)"
    );
}

#[test]
fn taker_insufficient_depth_is_rejected() {
    let mut c = dry_core();
    let req = order(FillPolicy::Taker, dec(4, 1), dec(5, 0), "k1");
    let o = registered("dry_1", &req, 0, 1);
    let view = TakerView {
        fill_price: None,
        crosses: true,
        depth: dec(3, 0),
        best: Some(dec(40, 2)),
    };
    let (done, _) = c.place_after_submit(&o, view, 0, 1);
    let error = match done {
        Submitted::Refused { error, .. } => error,
        other => panic!("{other:?}"),
    };
    assert_eq!(error.code, CoreErrorCode::WouldCross);
    assert!(error.message.starts_with("taker_insufficient_depth:"), "{}", error.message);
    assert!(error.message.contains("only 3 of 5 shares"), "{}", error.message);
    let last = c.last_error.as_ref().unwrap();
    assert_eq!(last.code, CoreErrorCode::WouldCross);
    assert_eq!(last.message, error.message);
}

#[test]
fn a_sell_that_nothing_bids_for_names_the_empty_side() {
    let mut c = dry_core();
    let mut req = order(FillPolicy::Taker, dec(4, 1), dec(5, 0), "k1");
    req.side = Side::Sell;
    let o = registered("dry_1", &req, 0, 1);
    let (done, _) = c.place_after_submit(&o, nothing_rests(), 0, 1);
    match done {
        Submitted::Refused { error, release } => {
            assert!(!release, "a sell never reserved anything");
            assert!(error.message.contains("sell limit (no bid rests;"), "{}", error.message);
        }
        other => panic!("{other:?}"),
    }
}

#[test]
fn a_risk_rejection_reaches_the_error_slot_with_its_own_reason() {
    let mut c = dry_core();
    let req = order(FillPolicy::Taker, dec(4, 1), dec(5, 0), "k1");
    let risk = CoreError::new(
        CoreErrorCode::RiskRejected,
        "notional 2.0 exceeds per-order cap 1".to_string(),
    );
    let answers = GateAnswers { risk: Some(risk), ..open_gates() };
    let err = c.place_gated(&req, answers, &Vec::new(), true, 1).unwrap_err();
    assert_eq!(err.code, CoreErrorCode::RiskRejected);
    assert!(err.message.contains("exceeds per-order cap"), "{}", err.message);
    let last = c.last_error.as_ref().unwrap();
    assert_eq!(last.code, CoreErrorCode::RiskRejected);
    assert_eq!(last.message, err.message);
    assert_eq!(last.ts_ms, 1);
    assert!(
        !err.message.contains("taker_no_crossing_liquidity")
            && !err.message.contains("taker_insufficient_depth")
    );
}

#[test]
fn a_filled_taker_leaves_no_error_and_a_maker_leg_reports_none() {
    let mut c = dry_core();
    let req = order(FillPolicy::Taker, dec(4, 1), dec(5, 0), "k1");
    let o = registered("dry_1", &req, 0, 1);
    let view = TakerView {
        fill_price: Some(dec(40, 2)),
        crosses: true,
        depth: dec(100, 0),
        best: Some(dec(40, 2)),
    };
    let (done, _) = c.place_after_submit(&o, view, 0, 1);
    assert!(matches!(done, Submitted::Fills { .. }));
    assert!(c.last_error.is_none());

    let mut c = dry_core();
    let req = order(FillPolicy::Maker, dec(40, 2), dec(5, 0), "k2");
    let o = registered("dry_1", &req, 0, 1);
    let (done, _) = c.place_after_submit(&o, nothing_rests(), 0, 1);
    assert!(matches!(done, Submitted::Rests { escalate_at_ms: None }));
    assert!(c.last_error.is_none());
}

#[test]
fn maker_rests_until_book_crosses() {
    let mut c = dry_core();
    let req = order(FillPolicy::Maker, dec(40, 2), dec(5, 0), "k1");
    let o = registered("dry_1", &req, 0, 1);
    let (done, _) = c.place_after_submit(&o, nothing_rests(), 0, 1);
    assert!(matches!(done, Submitted::Rests { .. }));
    let orders = vec![o.clone()];

    // An ask of 0.45 does not cross a bid of 0.40.
    let may_fill = c.book_snapshot("tok", vec![], vec![(dec(45, 2), dec(100, 0))], &orders);
    assert_eq!(may_fill, vec!["dry_1".to_string()]);
    assert!(try_maker_fill(&o, false, 1, true, dec(5, 0), 2).is_none());

    // One of 0.40 does, and the order fills at its own limit.
    let may_fill = c.book_snapshot("tok", vec![], vec![(dec(40, 2), dec(100, 0))], &orders);
    assert_eq!(may_fill, vec!["dry_1".to_string()]);
    let f = try_maker_fill(&o, true, 1, true, dec(5, 0), 3).unwrap();
    assert_eq!(f.size, dec(5, 0));
    assert_eq!(f.price, dec(40, 2));
    assert_eq!(f.trade_id, "dry_1:3:5");
}

#[test]
fn two_parts_of_one_order_are_two_trades() {
    let req = order(FillPolicy::Maker, dec(40, 2), dec(5, 0), "k1");
    let mut o = registered("dry_1", &req, 0, 1);
    let a = try_maker_fill(&o, true, 1, true, dec(2, 0), 3).unwrap();
    o.filled_size = dec(2, 0);
    let b = try_maker_fill(&o, true, 1, true, dec(2, 0), 3).unwrap();
    assert_ne!(a.trade_id, b.trade_id);
    // A full order, one whose time has not come and an empty level fill nothing.
    o.filled_size = dec(5, 0);
    assert!(try_maker_fill(&o, true, 1, true, dec(2, 0), 3).is_none());
    o.filled_size = dec(0, 0);
    assert!(try_maker_fill(&o, true, 4, true, dec(2, 0), 3).is_none());
    assert!(try_maker_fill(&o, true, 1, false, dec(2, 0), 3).is_none());
    assert!(try_maker_fill(&o, true, 1, true, dec(0, 0), 3).is_none());
}

#[test]
fn maker_then_taker_escalates_after_timeout() {
    let mut c = dry_core();
    let req = order(FillPolicy::MakerThenTaker, dec(40, 2), dec(5, 0), "k1");
    let mut o = registered("dry_1", &req, 1000, 1);
    let (done, _) = c.place_after_submit(&o, nothing_rests(), 1000, 1);
    match done {
        Submitted::Rests { escalate_at_ms } => o.escalate_at_ms = escalate_at_ms,
        other => panic!("{other:?}"),
    }
    assert_eq!(o.escalate_at_ms, Some(1001));
    let orders = vec![o];
    assert!(c.due_escalations(&orders, 1000).is_empty());
    let due = c.due_escalations(&orders, 1002);
    assert_eq!(due.len(), 1);
    // The cross states the price that the book offers, and not the passive limit.
    let cross = match c.escalate(&due[0], Some(dec(50, 2)), false, 1002) {
        EscalationStep::Crosses { order } => order,
        other => panic!("{other:?}"),
    };
    assert_eq!(cross.price, dec(50, 2));
    assert_eq!(cross.size, dec(5, 0));
    assert_eq!(cross.mode, FillPolicy::Taker);
    assert_eq!(cross.internal_key, "dry_1:escalated");
    let o = registered("dry_2", &cross, 0, 1002);
    let view = TakerView {
        fill_price: Some(dec(50, 2)),
        crosses: true,
        depth: dec(100, 0),
        best: Some(dec(50, 2)),
    };
    let (size, price) = match c.place_after_submit(&o, view, 0, 1002).0 {
        Submitted::Fills { size, price, .. } => (size, price),
        other => panic!("{other:?}"),
    };
    assert_eq!(price, dec(50, 2));
    // 10 less 0.5 * 5, less the taker's fee of 0.125 * (0.5 * 0.5)^2 a share.
    let desk = taken(&c, dec(10, 0), &o, size, price, dec(15625, 4));
    assert_eq!(desk.filled, dec(5, 0));
    assert_eq!(desk.cash, dec(74609375, 7));
    assert_eq!(desk.reserved, dec(0, 0));
}

#[test]
fn a_clock_set_anew_waits_the_same_time_again() {
    let mut c = dry_core();
    let req = order(FillPolicy::MakerThenTaker, dec(40, 2), dec(5, 0), "k1");
    let mut o = registered("dry_1", &req, 1000, 1);
    o.escalate_at_ms = Some(1001);
    for (now_ms, until) in [(1002, 2002), (2003, 3003), (9000, 10_000)] {
        let due = c.due_escalations(&vec![o.clone()], now_ms);
        match c.escalate(&due[0], None, false, now_ms) {
            EscalationStep::Rests { until_ms, .. } => assert_eq!(until_ms, until),
            other => panic!("{other:?}"),
        }
        o.escalate_at_ms = Some(until);
    }
    // An order without a time of its own rests as long as the settings say.
    let mut o = registered("dry_2", &req, 0, 1);
    o.escalate_at_ms = Some(1001);
    let due = c.due_escalations(&vec![o], 1002);
    assert_eq!(due[0].timeout_ms, c.config.default_maker_timeout_ms);
}

#[test]
fn escalation_without_crossing_depth_rearms_and_keeps_maker() {
    let mut c = dry_core();
    let req = order(FillPolicy::MakerThenTaker, dec(40, 2), dec(5, 0), "k1");
    let mut o = registered("dry_1", &req, 1000, 1);
    o.escalate_at_ms = Some(1001);
    let due = c.due_escalations(&vec![o], 1002);
    match c.escalate(&due[0], None, false, 1002) {
        EscalationStep::Rests { until_ms, say_so } => {
            assert_eq!(until_ms, 2002);
            assert!(!say_so);
        }
        other => panic!("{other:?}"),
    }
}

#[test]
fn unaffordable_cross_keeps_the_maker_and_does_not_fail_the_tick() {
    let mut c = dry_core();
    let req = order(FillPolicy::MakerThenTaker, dec(40, 2), dec(5, 0), "k1");
    let mut o = registered("dry_1", &req, 1000, 1);
    o.escalate_at_ms = Some(1001);
    let orders = vec![o.clone()];
    let due = c.due_escalations(&orders, 1002);
    match c.escalate(&due[0], Some(dec(99, 2)), true, 1002) {
        EscalationStep::Rests { until_ms, say_so } => {
            assert_eq!(until_ms, 2002);
            assert!(say_so, "the first refused cross is worth a word");
        }
        other => panic!("{other:?}"),
    }
    // The second refusal is not worth another word, and an affordable cross goes through.
    match c.escalate(&due[0], Some(dec(99, 2)), true, 2002) {
        EscalationStep::Rests { say_so, .. } => assert!(!say_so),
        other => panic!("{other:?}"),
    }
    match c.escalate(&due[0], Some(dec(50, 2)), false, 2003) {
        EscalationStep::Crosses { order } => assert_eq!(order.price, dec(50, 2)),
        other => panic!("{other:?}"),
    }
    // Marks of orders that work no longer go.
    let _ = c.escalate(&due[0], Some(dec(99, 2)), true, 3003);
    assert_eq!(c.escalation_skips.len(), 1);
    o.live = false;
    c.forget_escalation_skips(&vec![o]);
    assert_eq!(c.escalation_skips.len(), 0);
}

#[test]
fn an_order_with_nothing_left_is_done() {
    let mut c = dry_core();
    let req = order(FillPolicy::MakerThenTaker, dec(40, 2), dec(5, 0), "k1");
    let mut o = registered("dry_1", &req, 1000, 1);
    o.escalate_at_ms = Some(1001);
    o.filled_size = dec(5, 0);
    let due = c.due_escalations(&vec![o], 1002);
    assert!(matches!(
        c.escalate(&due[0], Some(dec(50, 2)), false, 1002),
        EscalationStep::Done
    ));
    assert_eq!(extreme_price(Side::Buy), dec(99, 2));
    assert_eq!(extreme_price(Side::Sell), dec(1, 2));
}

#[test]
fn cancel_of_a_venue_bound_order_queues_a_real_venue_cancel() {
    let mut c = live_core();
    // The venue has not answered yet: there is nothing to forward.
    let req = order(FillPolicy::Maker, dec(40, 2), dec(5, 0), "k1");
    let (id, reserve) = c.place_pending(&req, None).unwrap();
    assert_eq!(id, "live_1");
    assert_eq!(reserve, Some(dec(2, 0)));
    let o = registered(&id, &req, 0, 1);
    assert_eq!(Core::pending_unbound(&vec![o.clone()]).len(), 1);
    c.cancel(&o);
    assert!(c.take_pending_venue_cancels().is_empty());

    // The venue has accepted.
    let req = order(FillPolicy::Maker, dec(40, 2), dec(5, 0), "k2");
    let (id, _) = c.place_pending(&req, None).unwrap();
    assert_eq!(id, "live_2");
    let mut o = registered(&id, &req, 0, 3);
    o.status = OrderStatus::Live;
    o.venue_order_id = Some("0xv1".to_string());
    assert!(Core::pending_unbound(&vec![o.clone()]).is_empty());
    c.cancel(&o);
    assert_eq!(c.take_pending_venue_cancels(), vec!["0xv1".to_string()]);
    assert!(c.take_pending_venue_cancels().is_empty());
}

#[test]
fn a_full_queue_of_cancels_drops_the_oldest() {
    let mut c = live_core();
    for i in 0..300 {
        c.queue_venue_cancel(format!("0x{i}"));
        c.queue_venue_cancel(format!("0x{i}"));
    }
    let queue = c.take_pending_venue_cancels();
    assert_eq!(queue.len(), 256);
    assert_eq!(queue[0], "0x44");
    assert_eq!(queue[255], "0x299");
}

#[test]
fn cancelling_all_reaches_the_working_orders_of_a_token() {
    let mut c = live_core();
    let req = order(FillPolicy::Maker, dec(40, 2), dec(5, 0), "k1");
    let mut a = registered("live_1", &req, 0, 1);
    a.venue_order_id = Some("0xa".to_string());
    let mut b = registered("live_2", &req, 0, 1);
    b.token_id = "other".to_string();
    b.venue_order_id = Some("0xb".to_string());
    let mut ended = registered("live_3", &req, 0, 1);
    ended.live = false;
    ended.venue_order_id = Some("0xc".to_string());
    let orders = vec![a, b, ended];
    assert_eq!(c.cancel_all(&orders, Some("tok")), vec!["live_1".to_string()]);
    assert_eq!(c.take_pending_venue_cancels(), vec!["0xa".to_string()]);
    assert_eq!(
        c.cancel_all(&orders, None),
        vec!["live_1".to_string(), "live_2".to_string()]
    );
    assert_eq!(
        c.take_pending_venue_cancels(),
        vec!["0xa".to_string(), "0xb".to_string()]
    );
}

#[test]
fn confirm_live_arms_escalation_from_the_bound_maker_timeout() {
    let mut c = live_core();
    let req = order(FillPolicy::MakerThenTaker, dec(40, 2), dec(5, 0), "k1");
    let o = registered("live_1", &req, 5_000, 1);
    assert!(o.escalate_at_ms.is_none());
    assert_eq!(c.confirm_live(&o, 100), Some(5_100));

    // Without a timeout of its own the default counts.
    let o = registered("live_2", &req, 0, 2);
    assert_eq!(
        c.confirm_live(&o, 200),
        Some(200 + c.config.default_maker_timeout_ms)
    );
    // An order that only rests never gives up.
    let req = order(FillPolicy::Maker, dec(40, 2), dec(5, 0), "k3");
    assert_eq!(c.confirm_live(&registered("live_3", &req, 5_000, 2), 200), None);
}

#[test]
fn cancel_remaining_keeps_filled_shares_and_retires_the_remainder() {
    let mut c = live_core();
    let req = order(FillPolicy::Maker, dec(40, 2), dec(5, 0), "k1");
    let mut o = registered("live_1", &req, 0, 1);
    o.status = OrderStatus::PartiallyFilled;
    o.filled_size = dec(2, 0);
    o.venue_order_id = Some("0xv1".to_string());
    c.cancel_remaining(&o);
    assert_eq!(o.filled_size, dec(2, 0));
    assert_eq!(c.take_pending_venue_cancels(), vec!["0xv1".to_string()]);
}

#[test]
fn close_filled_flattens_only_the_shares_behind_the_order() {
    let mut c = dry_core();
    let req = order(FillPolicy::Maker, dec(40, 2), dec(5, 0), "k1");
    let o = registered("dry_1", &req, 0, 1);
    let positions = vec![held("pos_1", "tok", dec(2, 0)), held("pos_2", "else", dec(7, 0))];

    let e = Core::close_filled("nope", None, &positions).unwrap_err();
    assert_eq!(e.code, CoreErrorCode::UnknownOrder);
    let e = Core::close_filled("dry_1", Some(&o), &Vec::new()).unwrap_err();
    assert_eq!(e.code, CoreErrorCode::UnknownOrder);
    assert_eq!(e.message, "no open position behind order dry_1");

    let id = Core::close_filled("dry_1", Some(&o), &positions).unwrap();
    assert_eq!(id, "pos_1");
    let targets = Core::flatten(&positions, Some(id.as_str()));
    assert_eq!(targets.len(), 1);
    let open = vec!["tok".to_string(), "else".to_string()];
    let sell = c.flatten_order(&targets[0], false, Some(dec(44, 2)), &open).unwrap();
    assert_eq!(sell.side, Side::Sell);
    assert_eq!(sell.size, dec(2, 0));
    assert_eq!(sell.price, dec(44, 2));
    assert_eq!(sell.internal_key, "flatten:pos_1");
    assert_eq!(c.exit_reasons.get("tok"), Some(ExitReason::Manual));
    // A token that is being sold already is left alone; without a bid the lowest price is stated.
    assert!(c.flatten_order(&targets[0], true, None, &open).is_none());
    let sell = c.flatten_order(&targets[0], false, None, &open).unwrap();
    assert_eq!(sell.price, dec(1, 2));
    assert_eq!(Core::flatten(&positions, None).len(), 2);
}

#[test]
fn three_consecutive_sweep_failures_freeze_trading() {
    let mut c = live_core();
    let err = venue_down();
    assert!(c.on_reconcile_failed(&err, 1).is_empty());
    assert!(c.on_reconcile_failed(&err, 2).is_empty());
    assert!(!c.is_killed(), "one or two failures are noise");
    let events = c.on_reconcile_failed(&err, 3);
    assert!(c.is_killed());
    assert_eq!(events.len(), 2);
    let last = c.last_error.as_ref().unwrap();
    assert_eq!(last.message, "reconciliation sweep failed (3): venue down");
}

#[test]
fn a_successful_sweep_resets_the_failure_streak() {
    let mut c = live_core();
    let err = venue_down();
    c.on_reconcile_failed(&err, 1);
    c.on_reconcile_failed(&err, 2);
    let empty = SweepReport { repairs: vec![], ghost_ids: vec![], external_fills: 0 };
    assert!(c.reconcile(&empty).is_empty());
    let again = CoreError::new(CoreErrorCode::VenueError, "venue down again".to_string());
    c.on_reconcile_failed(&again, 4);
    assert!(!c.is_killed(), "only failures in a row count");
}

#[test]
fn a_sweep_that_repaired_something_is_told() {
    let mut c = live_core();
    let report = SweepReport {
        repairs: vec![
            Repair::FilledGap,
            Repair::MarkedCancelled,
            Repair::FilledGap,
            Repair::Other,
        ],
        ghost_ids: vec!["g".to_string()],
        external_fills: 0,
    };
    match &c.reconcile(&report)[0] {
        Event::ReconcileReport { filled, marked_filled, marked_cancelled, ghost_ids } => {
            assert_eq!((*filled, *marked_filled, *marked_cancelled), (2, 0, 1));
            assert_eq!(ghost_ids, &vec!["g".to_string()]);
        }
        other => panic!("{other:?}"),
    }
    let outside = SweepReport { repairs: vec![], ghost_ids: vec![], external_fills: 1 };
    assert_eq!(c.reconcile(&outside).len(), 1);
}

#[test]
fn venue_rejection_pauses_only_that_intent() {
    let mut c = dry_core();
    let k1 = order(FillPolicy::Taker, dec(4, 1), dec(10, 0), "k1");
    let (id, _) = c.place_pending(&k1, None).unwrap();
    let o = registered(&id, &k1, 0, 1_000);
    let (refusal, instead) = Core::reject_live_result(&o, Some(auth_failed()), None);
    assert!(instead.is_none());
    c.note_venue_rejection("k1", "s1".to_string(), &refusal, 1_100);

    let e = c.place_gated(&k1, open_gates(), &Vec::new(), true, 1_200).unwrap_err();
    assert_eq!(e.code, CoreErrorCode::RiskRejected);
    assert!(e.message.contains("rejection cooldown"), "{}", e.message);
    assert!(c.placement_blocked("k1", 1_200));

    let k2 = order(FillPolicy::Taker, dec(4, 1), dec(10, 0), "k2");
    assert!(c.place_pending(&k2, None).is_ok());
    assert!(!c.placement_blocked("k2", 1_200));

    assert!(c.place_gated(&k1, open_gates(), &Vec::new(), true, 1_100 + 2_000).is_ok());
}

#[test]
fn consecutive_venue_rejections_freeze_trading() {
    let mut c = dry_core();
    for i in 0..4 {
        let key = format!("k{i}");
        c.note_venue_rejection(&key, "s1".to_string(), &auth_failed(), i * 1_000 + 100);
    }
    assert!(!c.is_killed(), "four in a row must not freeze yet");
    let events = c.note_venue_rejection("k4", "s1".to_string(), &auth_failed(), 5_100);
    assert!(c.is_killed(), "the fifth in a row must");
    assert_eq!(events.len(), 2);
    assert_eq!(c.stats.venue_rejected, 5);
    assert!(c.kill_reason.as_ref().unwrap().contains("consecutive venue rejections"));
    let last = c.last_error.as_ref().unwrap();
    assert_eq!(last.code, CoreErrorCode::NotAuthenticated);
    assert_eq!(last.message, "auth failed");
    assert_eq!(last.legacy_message(), "NotAuthenticated: auth failed");
    let a = c.strategy_accounting.get("s1").unwrap();
    assert_eq!(a.rejected, 5);
    assert_eq!(a.rejection_causes.get("venue.NotAuthenticated"), Some(&5));
}

#[test]
fn an_intent_that_keeps_bouncing_is_told_once() {
    let mut c = dry_core();
    let mut told = 0;
    for i in 0..4 {
        let events = c.note_venue_rejection("k1", "s1".to_string(), &auth_failed(), i * 1_000_000);
        told += events.len();
        let req = order(FillPolicy::Maker, dec(4, 1), dec(1, 0), "other");
        // Another acceptance in between keeps the row short.
        c.confirm_live(&registered("dry_9", &req, 0, 0), 0);
    }
    assert!(told <= 1);
    assert!(!c.is_killed());
}

#[test]
fn failed_self_check_freezes_trading() {
    let mut c = dry_core();
    let events = c.on_self_check(SelfCheckReport {
        ok: false,
        ts_ms: 1_000,
        items: vec![SelfCheckItem {
            name: "balance".to_string(),
            ok: false,
            detail: "401 unauthorized".to_string(),
        }],
    });
    assert!(c.is_killed());
    assert_eq!(events.len(), 2);
    assert!(!c.last_self_check.as_ref().unwrap().ok);
    assert_eq!(
        c.kill_reason.as_ref().unwrap(),
        "trading self-check failed: balance: 401 unauthorized"
    );

    c.resume();
    assert!(!c.is_killed());
    assert!(c
        .on_self_check(SelfCheckReport { ok: true, ts_ms: 2_000, items: vec![] })
        .is_empty());
    assert!(!c.is_killed());
}

#[test]
fn a_second_freeze_keeps_the_first_reason() {
    let mut c = dry_core();
    assert_eq!(c.freeze_trading("first".to_string()).len(), 2);
    assert!(c.freeze_trading("second".to_string()).is_empty());
    assert_eq!(c.kill_reason.as_ref().unwrap(), "first");
    assert_eq!(c.kill("by hand".to_string()).len(), 1);
    assert_eq!(c.kill_reason.as_ref().unwrap(), "by hand");
}

#[test]
fn entry_gates_refuse_in_order_and_spare_sells() {
    let mut c = dry_core();
    let req = order(FillPolicy::Taker, dec(4, 1), dec(5, 0), "k1");
    let answers = GateAnswers {
        breaker_until_ms: Some(77),
        cannot_open: Some("Already in BTC".to_string()),
        ..open_gates()
    };
    let e = c.place_gated(&req, answers, &Vec::new(), true, 1).unwrap_err();
    assert_eq!(e.message, "breaker active until 77 for strategy spread_arb");
    let answers = GateAnswers { cannot_open: Some("Already in BTC".to_string()), ..open_gates() };
    let e = c.place_gated(&req, answers, &Vec::new(), true, 1).unwrap_err();
    assert_eq!(e.message, "Already in BTC");
    // The second half of a pair that is held to settlement passes.
    let mut other = held("pos_1", "down", dec(5, 0));
    other.direction = SignalDirection::Down;
    let answers = GateAnswers {
        cannot_open: Some("Already in BTC".to_string()),
        holds_to_settlement: true,
        ..open_gates()
    };
    assert!(c.place_gated(&req, answers, &vec![other], true, 1).is_ok());
    // An escalated leg and a sell pass none of the gates of entries.
    let answers = GateAnswers { breaker_until_ms: Some(77), ..open_gates() };
    assert!(c.place_gated(&req, answers, &Vec::new(), false, 1).is_ok());
    let mut sell = order(FillPolicy::Taker, dec(4, 1), dec(5, 0), "k2");
    sell.side = Side::Sell;
    let answers = GateAnswers { breaker_until_ms: Some(77), ..open_gates() };
    assert!(c.place_gated(&sell, answers, &Vec::new(), true, 1).is_ok());
}

#[test]
fn a_refused_maker_leg_crosses_at_once() {
    let req = order(FillPolicy::MakerThenTaker, dec(40, 2), dec(5, 0), "k1");
    let o = registered("live_1", &req, 0, 1);
    let would_cross = CoreError::new(CoreErrorCode::WouldCross, "post-only".to_string());
    let (_, instead) = Core::reject_live_result(&o, Some(would_cross), Some(dec(50, 2)));
    let q = instead.unwrap();
    assert_eq!(q.internal_key, "live_1:escalated");
    assert_eq!(q.price, dec(50, 2));
    let would_cross = CoreError::new(CoreErrorCode::WouldCross, "post-only".to_string());
    assert!(Core::reject_live_result(&o, Some(would_cross), None).1.is_none());
    let (plain, none) = Core::reject_live_result(&o, None, Some(dec(50, 2)));
    assert_eq!(plain.code, CoreErrorCode::VenueError);
    assert_eq!(plain.message, "venue rejected order");
    assert!(none.is_none());
}

#[test]
fn the_live_path_holds_buys_against_the_risk_gate() {
    let mut c = live_core();
    let req = order(FillPolicy::Maker, dec(40, 2), dec(5, 0), "k1");
    let refused = CoreError::new(CoreErrorCode::KillSwitchActive, "frozen".to_string());
    let e = c.place_pending(&req, Some(refused)).unwrap_err();
    assert_eq!(e.code, CoreErrorCode::KillSwitchActive);
    assert_eq!(c.next_id, 1, "a refused order takes no id");
    let mut sell = order(FillPolicy::Maker, dec(40, 2), dec(5, 0), "k2");
    sell.side = Side::Sell;
    assert_eq!(c.place_pending(&sell, None).unwrap().1, None);
}

#[test]
fn a_refusal_names_its_cause() {
    let bucket = |code, message: &str| {
        classify_rejection(&CoreError::new(code, message.to_string()))
    };
    assert_eq!(
        bucket(CoreErrorCode::RiskRejected, "notional 4.3 exceeds per-order cap 1"),
        "risk.perOrderCap"
    );
    assert_eq!(bucket(CoreErrorCode::KillSwitchActive, "frozen"), "other:frozen");
    assert_eq!(bucket(CoreErrorCode::RiskRejected, "breaker active until 7"), "risk:breaker");
    assert_eq!(
        bucket(CoreErrorCode::RiskRejected, "Max positions\treached"),
        "positions.max_positions"
    );
    assert_eq!(bucket(CoreErrorCode::RiskRejected, "Already in BTC"), "positions.already_in");
    assert_eq!(bucket(CoreErrorCode::RiskRejected, "SL cooldown 3s"), "positions.exitCooldown");
    assert_eq!(bucket(CoreErrorCode::RiskRejected, "Asset cooldown"), "positions.lossCooldown");
    assert_eq!(bucket(CoreErrorCode::RiskRejected, "a notional cap"), "limit.cap");
    assert_eq!(
        bucket(CoreErrorCode::RiskRejected, "intent k in rejection cooldown (3ms left): x"),
        "venue.cooldown"
    );
    assert_eq!(
        bucket(CoreErrorCode::RiskRejected, "price 1 outside the price band"),
        "risk.priceBand"
    );
    assert_eq!(bucket(CoreErrorCode::InsufficientFunds, "no cash"), "other:no cash");
    assert_eq!(bucket(CoreErrorCode::InvalidSize, "size"), "other:size");
    // What nothing else names is named by its beginning.
    assert_eq!(bucket(CoreErrorCode::VenueError, "teapot"), "other:teapot");
    assert_eq!(
        bucket(CoreErrorCode::Internal, "0123456789012345678901234567890123456789"),
        "other:01234567890123456789012345678901"
    );
}

#[test]
fn the_spacing_of_retries_grows_to_its_ceiling() {
    assert_eq!(reject_backoff_ms(1), 2_000);
    assert!(reject_backoff_ms(2) > reject_backoff_ms(1));
    assert_eq!(reject_backoff_ms(50), reject_backoff_ms(51));
    assert!(is_close_intent("flatten:pos_1"));
    assert!(is_close_intent("exit:pos_1"));
    assert!(!is_close_intent("dry_1:escalated"));
}

#[test]
fn an_exit_waits_out_a_refusal() {
    let mut c = dry_core();
    let job = ExitJob {
        position_id: "pos_1".to_string(),
        token_id: "tok".to_string(),
        condition_id: "cond".to_string(),
        price: dec(44, 2),
        reason: ExitReason::StopLoss,
        use_maker: false,
        internal_key: "exit:pos_1".to_string(),
        strategy: "spread_arb".to_string(),
        asset: "BTC".to_string(),
        direction: SignalDirection::Up,
    };
    let open = vec!["tok".to_string()];
    let sell = c.exit_order(&job, false, Some(dec(5, 0)), &open, 1).unwrap();
    // Two ticks below the bid, so that it crosses.
    assert_eq!(sell.price, dec(42, 2));
    assert_eq!(sell.size, dec(5, 0));
    assert_eq!(c.exit_reasons.get("tok"), Some(ExitReason::StopLoss));
    assert!(c.exit_order(&job, true, Some(dec(5, 0)), &open, 1).is_none());
    assert!(c.exit_order(&job, false, None, &open, 1).is_none());
    c.note_venue_rejection("exit:pos_1", "spread_arb".to_string(), &auth_failed(), 10);
    assert!(c.exit_order(&job, false, Some(dec(5, 0)), &open, 11).is_none());
}

#[test]
fn a_fill_of_the_own_matcher_is_confirmed_at_once() {
    let req = order(FillPolicy::Maker, dec(40, 2), dec(5, 0), "k1");
    let o = registered("dry_1", &req, 0, 1);
    let f = authoritative_fill("dry_1", Some(&o), "t", dec(2, 0), dec(40, 2), true, 9).unwrap();
    assert_eq!(f.status, FillStatus::Confirmed);
    assert_eq!(f.size, dec(2, 0));
    assert_eq!(f.maker, Some(true));
    assert_eq!(f.trade_id.as_deref(), Some("t"));
    let e = authoritative_fill("x", None, "t", dec(2, 0), dec(40, 2), true, 9).unwrap_err();
    assert_eq!(e.code, CoreErrorCode::UnknownOrder);
    assert_eq!(e.message, "x");
}
