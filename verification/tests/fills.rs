//! What fills do to the cash, the positions and the accounting.
use blitzkrieg_core::config::{CoreConfig, PositionConfig, RiskConfig};
use blitzkrieg_core::decimal::Decimal;
use blitzkrieg_core::fees::FeeSchedule;
use blitzkrieg_core::fills::{
    cash_fits, is_folded_in, reservation_target, AfterExit, BreakerVerdict, CashMove, EntryTarget, FillDelta,
    LateFill, Projection, VenueTrade,
};
use blitzkrieg_core::lifecycle::DailyTrip;
use blitzkrieg_core::model::{
    CashFlows, CoreErrorCode, Event, ExitReason, FillPolicy, OpenPosition, OrderRole, OrderStatus,
    Side, SignalDirection, TrackedOrder,
};
use blitzkrieg_core::service::{CloseCredential, ClosedPosition, Core};

fn dec(num: i64, scale: u32) -> Decimal {
    Decimal::new(num, scale)
}

fn kernel(round_duration_sec: i64) -> Core {
    let risk = RiskConfig {
        max_order_notional: dec(100, 0),
        max_order_notional_pct: dec(0, 0),
        max_open_notional_usd: dec(0, 0),
        max_price: dec(99, 2),
    };
    let positions = PositionConfig {
        max_daily_loss_equity_pct: dec(0, 0),
        exit_min_time_left_sec: 0,
    };
    let mut c = CoreConfig::with_defaults(risk, positions, 8_000);
    c.auto_exits_enabled = false;
    c.round_duration_sec = round_duration_sec;
    Core::new(c, None, 0)
}

fn shipped() -> FeeSchedule {
    FeeSchedule { name: "legacy_quadratic".to_string(), rate: dec(125, 3), exponent: 2 }
}

fn fill(side: Side, role: OrderRole, price: Decimal, delta: Decimal) -> FillDelta {
    FillDelta {
        order_id: "dry_1".to_string(),
        trade_id: "x1".to_string(),
        token_id: "tok".to_string(),
        condition_id: "cond".to_string(),
        side,
        price,
        limit_price: price,
        delta,
        role,
        strategy: "acc".to_string(),
        asset: "BTC".to_string(),
        direction: "up".to_string(),
        round_slot: 1,
    }
}

fn held(shares: Decimal, cost: Decimal) -> OpenPosition {
    OpenPosition {
        id: "pos_1".to_string(),
        strategy: "acc".to_string(),
        asset: "BTC".to_string(),
        direction: SignalDirection::Up,
        token_id: "tok".to_string(),
        condition_id: "cond".to_string(),
        entry_price: dec(40, 2),
        current_price: dec(40, 2),
        prev_price: dec(40, 2),
        shares,
        cost_usd: cost,
        was_maker_entry: true,
        entry_fee_pct: dec(0, 0),
        entry_role: OrderRole::Maker,
        exit_role: OrderRole::Maker,
        target_exit_price: None,
        entered_at_ms: 4_000,
        expires_at_ms: 1_800_000,
        last_book_ts: 0,
        flows: CashFlows {
            entry_cost_usd: cost,
            entry_fee_usd: dec(0, 0),
            exit_fee_usd: dec(0, 0),
            proceeds_usd: dec(0, 0),
            opened_shares: shares,
        },
    }
}

fn closed(exit_price: Decimal, net: Decimal, reason: ExitReason) -> ClosedPosition {
    ClosedPosition {
        id: "pos_1".to_string(),
        strategy: "acc".to_string(),
        asset: "BTC".to_string(),
        direction: SignalDirection::Up,
        token_id: "tok".to_string(),
        condition_id: "cond".to_string(),
        entry_price: dec(40, 2),
        exit_price,
        shares: dec(10, 0),
        entry_fee_pct: dec(0, 0),
        exit_fee_pct: dec(0, 0),
        net_pnl_usd: net,
        net_pnl_pct: dec(0, 0),
        exit_reason: reason,
    }
}

fn calm() -> BreakerVerdict {
    BreakerVerdict { tripped: false, losses: 0 }
}

/// The cash after the moves of a fill.
fn book(cash: Decimal, moves: &[CashMove]) -> Decimal {
    let mut cash = cash;
    for m in moves {
        cash = match m {
            CashMove::Buy { paid, .. } => cash.minus(*paid),
            CashMove::Fee { fee_usd } => cash.minus(*fee_usd),
            CashMove::Sell { received, fee_usd } => cash.plus(*received).minus(*fee_usd),
        };
    }
    cash
}

fn outside(size: Decimal, price: Decimal, maker: Option<bool>, ts_ms: i64) -> VenueTrade {
    VenueTrade { token_id: "tok".to_string(), side: Side::Sell, price, size, maker, ts_ms }
}

#[test]
fn filled_entry_expires_at_round_end_not_start() {
    let duration = 300;
    let c = kernel(duration);
    let now_ms = 1_000_000_000i64;
    let slot = now_ms / 1000 / duration;
    let mut d = fill(Side::Buy, OrderRole::Taker, dec(40, 2), dec(10, 0));
    d.round_slot = slot;
    let expires = match c.entry_target(&d, &Vec::new(), now_ms) {
        EntryTarget::New { params } => params.expires_at_ms,
        other => panic!("{other:?}"),
    };
    assert_eq!(expires, (slot + 1) * duration * 1000);
    assert!(expires > now_ms);
    let time_left = (expires - now_ms) / 1000;
    assert!(time_left > 0 && time_left <= duration);
}

#[test]
fn a_buy_without_a_slot_ends_a_round_from_now() {
    let c = kernel(300);
    let mut d = fill(Side::Buy, OrderRole::Maker, dec(40, 2), dec(10, 0));
    d.round_slot = 0;
    match c.entry_target(&d, &Vec::new(), 5) {
        EntryTarget::New { params } => {
            assert_eq!(params.expires_at_ms, 300_005);
            assert!(params.was_maker);
            assert_eq!(params.direction, SignalDirection::Up);
        }
        other => panic!("{other:?}"),
    }
    match c.entry_target(&d, &vec![held(dec(1, 0), dec(1, 0))], 5) {
        EntryTarget::Held { position_id } => assert_eq!(position_id, "pos_1"),
        other => panic!("{other:?}"),
    }
}

#[test]
fn a_taker_pays_the_schedule_and_a_maker_nothing() {
    let c = kernel(900);
    let d = fill(Side::Buy, OrderRole::Taker, dec(40, 2), dec(5, 0));
    let x = c.fill_cash(&d, &shipped(), &shipped(), dec(18, 1));
    assert_eq!(x.fee_usd, dec(36, 3));
    // 10 less 2.00 less 0.036.
    assert_eq!(book(dec(10, 0), &x.moves), dec(7964, 3));
    let d = fill(Side::Buy, OrderRole::Maker, dec(40, 2), dec(5, 0));
    let x = c.fill_cash(&d, &shipped(), &shipped(), dec(18, 1));
    assert_eq!(x.fee_usd, dec(0, 0));
    assert_eq!(book(dec(10, 0), &x.moves), dec(8, 0));
    let d = fill(Side::Sell, OrderRole::Taker, dec(60, 2), dec(10, 0));
    let x = c.fill_cash(&d, &shipped(), &shipped(), dec(1, 0));
    assert_eq!(book(dec(0, 0), &x.moves), dec(594, 2));
}

#[test]
fn a_fill_without_a_fee_needs_no_schedule() {
    // Outside a replay only the shipped schedule may be charged.
    let c = kernel(900);
    let other = FeeSchedule { name: "trial".to_string(), rate: dec(5, 1), exponent: 1 };
    let d = fill(Side::Buy, OrderRole::Maker, dec(40, 2), dec(5, 0));
    let x = c.checked_fill_cash(&d, &other, &shipped(), dec(18, 1)).unwrap();
    assert_eq!(x.fee_usd, dec(0, 0));
    assert_eq!(book(dec(10, 0), &x.moves), dec(8, 0));
    let back = fill(Side::Sell, OrderRole::Taker, dec(40, 2), dec(-5, 0));
    let x = c.checked_fill_cash(&back, &other, &shipped(), dec(18, 1)).unwrap();
    assert_eq!(x.fee_usd, dec(0, 0));
    assert_eq!(book(dec(10, 0), &x.moves), dec(8, 0));
    // Nor does a trade that is folded in nowhere.
    let stray = outside(dec(5, 0), dec(40, 2), Some(false), 1_000);
    assert!(!is_folded_in(&stray, &Vec::new()));
    let x = c.checked_external_sell(&stray, &Vec::new(), &other, &shipped(), dec(18, 1));
    assert!(x.unwrap().is_none());
    let mut bought = outside(dec(5, 0), dec(40, 2), Some(false), 1_000);
    bought.side = Side::Buy;
    let open = vec![held(dec(10, 0), dec(4, 0))];
    assert!(!is_folded_in(&bought, &open));
    assert!(c.external_sell(&bought, &open, &other, &shipped(), dec(18, 1)).is_none());
    let hit = outside(dec(5, 0), dec(40, 2), Some(true), 1_000);
    assert!(is_folded_in(&hit, &open));
    let x = c.external_sell(&hit, &open, &other, &shipped(), dec(18, 1)).unwrap();
    assert_eq!(x.fee_usd, dec(0, 0));
    let nothing = vec![held(dec(0, 0), dec(0, 0))];
    assert!(!is_folded_in(&hit, &nothing));
}

#[test]
fn a_run_of_fills_moves_proceeds_less_cost_less_fees() {
    let c = kernel(900);
    let seed = dec(1000, 0);
    let run = [
        (Side::Buy, OrderRole::Maker, dec(40, 2), dec(10, 0)),
        (Side::Buy, OrderRole::Taker, dec(50, 2), dec(4, 0)),
        (Side::Sell, OrderRole::Taker, dec(60, 2), dec(10, 0)),
        (Side::Buy, OrderRole::Taker, dec(50, 2), dec(-4, 0)),
        (Side::Sell, OrderRole::Maker, dec(70, 2), dec(3, 0)),
    ];
    let mut cash = seed;
    let mut fees = dec(0, 0);
    for (side, role, price, size) in run {
        let x = c.fill_cash(&fill(side, role, price, size), &shipped(), &shipped(), dec(2, 0));
        cash = book(cash, &x.moves);
        fees = fees.plus(x.fee_usd);
    }
    // Of the taken fills the second costs 0.04 and the third 0.12; what is taken back is free.
    assert_eq!(fees, dec(16, 2));
    let cost = dec(4, 0).plus(dec(2, 0)).minus(dec(2, 0));
    let proceeds = dec(6, 0).plus(dec(21, 1));
    assert_eq!(cash, seed.plus(proceeds).minus(cost).minus(fees));
    assert_eq!(cash, dec(100394, 2));
}

#[test]
fn an_unwound_close_gives_its_fees_and_its_profit_back() {
    let mut c = kernel(900);
    let mut first = closed(dec(60, 2), dec(15, 1), ExitReason::TakeProfit);
    first.exit_fee_pct = dec(1, 0);
    c.on_position_closed(&first, calm(), dec(15, 1), None);
    let (fees, net) = {
        let acc = c.strategy_accounting.get("acc").unwrap();
        (acc.fees_usd, acc.net_pnl_usd)
    };
    assert_eq!(fees, dec(6, 2));
    assert_eq!(net, dec(15, 1));
    let mut second = closed(dec(30, 2), dec(-11, 1), ExitReason::StopLoss);
    second.entry_fee_pct = dec(2, 0);
    c.on_position_closed(&second, calm(), dec(4, 1), None);
    {
        let acc = c.strategy_accounting.get("acc").unwrap();
        assert_eq!(acc.closed_trades, 2);
        assert_eq!(acc.losses, 1);
        assert_eq!(acc.fees_usd, dec(14, 2));
        assert_eq!(acc.net_pnl_usd, dec(4, 1));
    }
    c.unwind_closed_trade(&second);
    let acc = c.strategy_accounting.get("acc").unwrap();
    assert_eq!(acc.closed_trades, 1);
    assert_eq!(acc.wins, 1);
    assert_eq!(acc.losses, 0);
    assert_eq!(acc.fees_usd, fees);
    assert_eq!(acc.net_pnl_usd, net);
}

#[test]
fn a_buy_of_a_held_token_needs_no_round() {
    let c = kernel(i64::MAX);
    let d = fill(Side::Buy, OrderRole::Maker, dec(40, 2), dec(5, 0));
    let open = vec![held(dec(10, 0), dec(4, 0))];
    match c.entry_target(&d, &open, 1_000) {
        EntryTarget::Held { position_id } => assert_eq!(position_id, "pos_1"),
        other => panic!("{other:?}"),
    }
}

#[test]
fn a_price_improvement_releases_what_the_limit_had_reserved() {
    let c = kernel(900);
    let mut d = fill(Side::Buy, OrderRole::Maker, dec(40, 2), dec(5, 0));
    d.limit_price = dec(50, 2);
    let x = c.fill_cash(&d, &shipped(), &shipped(), dec(0, 0));
    match &x.moves[0] {
        CashMove::Buy { paid, released, order_id } => {
            assert_eq!(*paid, dec(2, 0));
            assert_eq!(*released, dec(25, 1));
            assert_eq!(order_id, "dry_1");
        }
        other => panic!("{other:?}"),
    }
}

#[test]
fn a_rolled_back_fill_leaves_the_ledger_clean() {
    let c = kernel(900);
    let seed = dec(1000, 0);
    let d = fill(Side::Buy, OrderRole::Maker, dec(43, 2), dec(10, 0));
    let moved = book(seed, &c.fill_cash(&d, &shipped(), &shipped(), dec(0, 0)).moves);
    assert_eq!(moved, dec(9957, 1));
    let back = fill(Side::Buy, OrderRole::Maker, dec(43, 2), dec(-10, 0));
    let again = book(moved, &c.fill_cash(&back, &shipped(), &shipped(), dec(0, 0)).moves);
    assert_eq!(again, seed);
    let sold = fill(Side::Sell, OrderRole::Maker, dec(43, 2), dec(-10, 0));
    let x = c.fill_cash(&sold, &shipped(), &shipped(), dec(0, 0));
    assert_eq!(book(seed, &x.moves), dec(9957, 1));
}

#[test]
fn external_sell_beyond_attributable_inventory_never_mints_cash() {
    let mut c = kernel(900);
    let seed = dec(1000, 0);

    // Nothing is held: the sell is folded in nowhere.
    let t = outside(dec(100, 0), dec(40, 2), Some(true), 1_000);
    assert!(c.external_sell(&t, &Vec::new(), &shipped(), &shipped(), dec(0, 0)).is_none());
    c.advance_watermark(&vec![t]);

    // Ten shares are held: a sell of a hundred is cut to them, and so is the cash.
    let positions = vec![held(dec(10, 0), dec(4, 0))];
    let t = outside(dec(100, 0), dec(40, 2), Some(true), 6_000);
    let x = c.external_sell(&t, &positions, &shipped(), &shipped(), dec(0, 0)).unwrap();
    assert_eq!(x.position_id, "pos_1");
    assert_eq!(x.size, dec(10, 0));
    assert_eq!(x.notional, dec(4, 0));
    assert_eq!(x.fee_usd, dec(0, 0));
    assert_eq!(x.role, OrderRole::Maker);
    let cash = seed.minus(dec(4, 0)).plus(x.notional).minus(x.fee_usd);
    assert_eq!(cash, seed);
    let done = closed(dec(40, 2), dec(0, 0), ExitReason::Manual);
    c.on_position_closed(&done, calm(), dec(0, 0), None);
    let acc = c.strategy_accounting.get("acc").unwrap();
    assert_eq!(acc.net_pnl_usd, dec(0, 0));
    assert_eq!(acc.wins, 1);
    assert_eq!(acc.losses, 0);
}

#[test]
fn manual_venue_close_reconciles_the_position() {
    let mut c = kernel(900);
    let positions = vec![held(dec(10, 0), dec(4, 0))];
    let t = outside(dec(10, 0), dec(6, 1), Some(false), 2_000);
    let trades = vec![t];
    assert_eq!(c.fresh_trades(&trades).len(), 1);
    // A taker pays the schedule's percentage at the price: 0.1200 % of the price, say.
    let x = c
        .external_sell(&trades[0], &positions, &shipped(), &shipped(), dec(12, 1))
        .unwrap();
    assert_eq!(x.notional, dec(6, 0));
    assert_eq!(x.fee_usd, dec(72, 3));
    assert_eq!(x.role, OrderRole::Taker);
    c.advance_watermark(&trades);
    assert_eq!(c.recon_watermark_ms, 2_000);
    // The same sweep again folds nothing in.
    assert!(c.fresh_trades(&trades).is_empty());
}

#[test]
fn failed_status_after_full_close_restores_inventory_and_reverses_profit() {
    let mut c = kernel(900);
    let seed = dec(1000, 0);
    let bought = fill(Side::Buy, OrderRole::Maker, dec(40, 2), dec(10, 0));
    let cash = book(seed, &c.fill_cash(&bought, &shipped(), &shipped(), dec(0, 0)).moves);
    let sold = fill(Side::Sell, OrderRole::Maker, dec(80, 2), dec(10, 0));
    let cash = book(cash, &c.fill_cash(&sold, &shipped(), &shipped(), dec(0, 0)).moves);
    assert_eq!(cash, seed.plus(dec(4, 0)));
    let done = closed(dec(80, 2), dec(4, 0), ExitReason::Manual);
    let events = c.on_position_closed(&done, calm(), dec(4, 0), None);
    match &events[0] {
        Event::PositionClosed { net_pnl_usd, daily_pnl_usd, .. } => {
            assert_eq!(*net_pnl_usd, dec(4, 0));
            assert_eq!(*daily_pnl_usd, dec(4, 0));
        }
        other => panic!("{other:?}"),
    }
    c.push_close_credential(CloseCredential {
        trade_id: "x1".to_string(),
        restored: held(dec(10, 0), dec(4, 0)),
        closed: done,
        streak_before: 0,
    });
    {
        let acc = c.strategy_accounting.get("acc").unwrap();
        assert_eq!(acc.closed_trades, 1);
        assert_eq!(acc.wins, 1);
        assert_eq!(acc.net_pnl_usd, dec(4, 0));
    }
    // The same trade comes back as failed.
    let back = fill(Side::Sell, OrderRole::Maker, dec(80, 2), dec(-10, 0));
    let credential = match c.after_stray_exit_fill(&back) {
        AfterExit::Unwinds { credential } => credential,
        other => panic!("{other:?}"),
    };
    // The cash is what it was after the entry, and the day has lost the profit.
    let cash = book(cash, &c.fill_cash(&back, &shipped(), &shipped(), dec(0, 0)).moves);
    assert_eq!(cash, seed.minus(dec(4, 0)));
    assert_eq!(dec(4, 0).minus(credential.closed.net_pnl_usd), dec(0, 0));
    assert_eq!(credential.streak_before, 0);
    assert_eq!(cash.plus(credential.restored.cost_usd), seed);
    assert_eq!(credential.restored.shares, dec(10, 0));
    assert_eq!(credential.restored.cost_usd, dec(4, 0));
    assert_eq!(credential.restored.entry_price, dec(40, 2));
    c.unwind_closed_trade(&credential.closed);
    {
        let acc = c.strategy_accounting.get("acc").unwrap();
        assert_eq!(acc.closed_trades, 0);
        assert_eq!(acc.wins, 0);
        assert_eq!(acc.fees_usd, dec(0, 0));
        assert_eq!(acc.net_pnl_usd, dec(0, 0));
    }
    // The close can be taken back once.
    match c.after_stray_exit_fill(&back) {
        AfterExit::Fails { error } => {
            assert_eq!(error.code, CoreErrorCode::Internal);
            assert!(error.message.contains("has no open position to reverse"));
        }
        other => panic!("{other:?}"),
    }
}

#[test]
fn manual_venue_loss_reaches_the_trade_ledger() {
    let mut c = kernel(900);
    let done = closed(dec(40, 2), dec(-2, 0), ExitReason::Manual);
    let events = c.on_position_closed(&done, calm(), dec(-2, 0), None);
    let acc = c.strategy_accounting.get("acc").unwrap();
    assert_eq!(acc.closed_trades, 1);
    assert_eq!(acc.losses, 1);
    assert_eq!(acc.wins, 0);
    assert_eq!(acc.net_pnl_usd, dec(-2, 0));
    match &events[0] {
        Event::PositionClosed { net_pnl_usd, reason, daily_pnl_usd, .. } => {
            assert_eq!(*net_pnl_usd, dec(-2, 0));
            assert_eq!(reason, "Manual");
            assert_eq!(*daily_pnl_usd, dec(-2, 0));
        }
        other => panic!("{other:?}"),
    }
}

#[test]
fn a_tripped_breaker_is_told_with_the_close() {
    let mut c = kernel(900);
    let done = closed(dec(40, 2), dec(-2, 0), ExitReason::StopLoss);
    let events = c.on_position_closed(&done, BreakerVerdict { tripped: true, losses: 3 }, dec(-6, 0), None);
    match &events[1] {
        Event::RiskAlert { message, .. } => assert_eq!(
            message,
            "consecutive-loss breaker tripped for strategy acc: 3 losses, halting its new \
             entries 300s"
        ),
        other => panic!("{other:?}"),
    }
}

#[test]
fn a_close_counts_the_fees_of_both_legs() {
    let mut c = kernel(900);
    let mut done = closed(dec(60, 2), dec(1, 0), ExitReason::TakeProfit);
    done.entry_fee_pct = dec(18, 1);
    done.exit_fee_pct = dec(1, 0);
    c.on_position_closed(&done, calm(), dec(1, 0), None);
    // 1.8 % of 4.00 and 1 % of 6.00.
    assert_eq!(c.strategy_accounting.get("acc").unwrap().fees_usd, dec(132, 3));
    c.unwind_closed_trade(&done);
    assert_eq!(c.strategy_accounting.get("acc").unwrap().fees_usd, dec(0, 0));
}

#[test]
fn an_order_that_ended_reserves_nothing() {
    let mut o = TrackedOrder {
        order_id: "dry_1".to_string(),
        token_id: "tok".to_string(),
        condition_id: "cond".to_string(),
        side: Side::Buy,
        mode: FillPolicy::Maker,
        price: dec(40, 2),
        size: dec(5, 0),
        filled_size: dec(2, 0),
        status: OrderStatus::PartiallyFilled,
        live: true,
        internal_key: "k".to_string(),
        strategy: "acc".to_string(),
        asset: "BTC".to_string(),
        direction: "up".to_string(),
        round_slot: 1,
        submitted_at_ms: 0,
        updated_at_ms: 0,
        maker_timeout_ms: 0,
        escalate_at_ms: None,
        venue_order_id: None,
    };
    assert_eq!(reservation_target(Some(&o), dec(3, 0)), dec(12, 1));
    o.live = false;
    assert_eq!(reservation_target(Some(&o), dec(3, 0)), dec(0, 0));
    assert_eq!(reservation_target(None, dec(3, 0)), dec(0, 0));
}

#[test]
fn a_late_fill_is_told_with_all_its_numbers() {
    let late = LateFill {
        order_id: "o1".to_string(),
        trade_id: String::new(),
        absorbed_by: Some(OrderStatus::Cancelled),
        size: dec(2, 0),
        cumulative: dec(7, 0),
        order_size: dec(5, 0),
        reported_cumulative: dec(75, 1),
        overfill: true,
    };
    let (message, events) = Core::emit_late_fill(&late);
    assert_eq!(
        message,
        "late_fill order=o1 trade=- status=Cancelled size=2 cumulative=7/5 reported=7.5 \
         overfill=true"
    );
    match &events[0] {
        Event::RiskAlert { code, .. } => assert_eq!(*code, CoreErrorCode::RiskRejected),
        other => panic!("{other:?}"),
    }
}

#[test]
fn cash_beyond_the_range_is_not_moved() {
    let huge = Decimal::from_i128_with_scale(79_228_162_514_264_337_593_543_950_335, 0);
    let c = kernel(900);
    let d = fill(Side::Buy, OrderRole::Maker, huge, dec(2, 0));
    assert!(!cash_fits(&d, dec(0, 0)));
    assert!(c.checked_fill_cash(&d, &shipped(), &shipped(), dec(0, 0)).is_none());
    let d = fill(Side::Buy, OrderRole::Maker, huge, dec(1, 0));
    assert!(c.checked_fill_cash(&d, &shipped(), &shipped(), dec(0, 0)).is_some());
    let positions = vec![held(dec(10, 0), dec(4, 0))];
    let t = outside(dec(10, 0), huge, Some(true), 1);
    assert!(c
        .checked_external_sell(&t, &positions, &shipped(), &shipped(), dec(0, 0))
        .is_none());
    let t = outside(dec(10, 0), dec(4, 1), Some(true), 1);
    let x = c.checked_external_sell(&t, &positions, &shipped(), &shipped(), dec(0, 0));
    assert!(x.unwrap().is_some());
    let mut c = kernel(900);
    let mut done = closed(dec(60, 2), huge, ExitReason::Manual);
    assert!(c.checked_on_position_closed(&done, calm(), dec(0, 0), None).is_some());
    assert!(c.checked_on_position_closed(&done, calm(), dec(0, 0), None).is_none());
    assert_eq!(c.strategy_accounting.get("acc").unwrap().closed_trades, 1);
    done.net_pnl_usd = huge.neg();
    assert!(!c.checked_unwind_closed_trade(&done));
    done.net_pnl_usd = huge;
    assert!(c.checked_unwind_closed_trade(&done));
}

/// The percentage of the notional that the shipped schedule charges at a price.
fn taker_pct(price: Decimal) -> Decimal {
    let spread = price.times(dec(1, 0).minus(price));
    dec(125, 3).times(spread).times(spread).over(price).times(dec(100, 0))
}

/// Fills, and what they leave: the cash, what was paid in, what came back, and the fees.
struct Account {
    cash: Decimal,
    paid_in: Decimal,
    came_back: Decimal,
    entry_fee: Decimal,
    exit_fee: Decimal,
}

impl Account {
    fn new() -> Account {
        Account {
            cash: dec(1000, 0),
            paid_in: dec(0, 0),
            came_back: dec(0, 0),
            entry_fee: dec(0, 0),
            exit_fee: dec(0, 0),
        }
    }

    fn fill(&mut self, side: Side, role: OrderRole, price: Decimal, size: Decimal) {
        let c = kernel(900);
        let d = fill(side, role, price, size);
        let x = c.fill_cash(&d, &shipped(), &shipped(), taker_pct(price));
        self.cash = book(self.cash, &x.moves);
        match side {
            Side::Buy => {
                self.paid_in = self.paid_in.plus(price.times(size));
                self.entry_fee = self.entry_fee.plus(x.fee_usd);
            }
            Side::Sell => {
                self.came_back = self.came_back.plus(price.times(size));
                self.exit_fee = self.exit_fee.plus(x.fee_usd);
            }
        }
    }

    fn net(&self) -> Decimal {
        self.came_back.minus(self.paid_in).minus(self.entry_fee).minus(self.exit_fee)
    }

    fn assert_reconciled(&self) {
        assert_eq!(self.cash, dec(1000, 0).plus(self.net()));
    }
}

#[test]
fn every_maker_taker_partial_shape_reconciles() {
    let shapes = [dec(1, 0), dec(5, 0), dec(999, 2), dec(10, 0)];
    let mut checked = 0;
    for entry in shapes {
        for exit in shapes {
            if entry.less(exit) {
                continue;
            }
            for em in [OrderRole::Maker, OrderRole::Taker] {
                for xm in [OrderRole::Maker, OrderRole::Taker] {
                    let mut a = Account::new();
                    a.fill(Side::Buy, em, dec(43, 2), entry);
                    a.fill(Side::Sell, xm, dec(95, 2), exit);
                    if exit.less(entry) {
                        a.fill(Side::Sell, xm, dec(95, 2), entry.minus(exit));
                    }
                    a.assert_reconciled();
                    assert_eq!(a.came_back.minus(a.paid_in), dec(52, 2).times(entry));
                    checked += 1;
                }
            }
        }
    }
    assert_eq!(checked, 40);
}

#[test]
fn the_venue_role_report_outranks_the_orders_policy() {
    // Whatever the order was meant to do, a fill that crossed pays.
    let mut crossed = Account::new();
    crossed.fill(Side::Buy, OrderRole::Taker, dec(70, 2), dec(10, 0));
    assert!(crossed.entry_fee.is_positive());
    assert_eq!(crossed.entry_fee, taker_pct(dec(70, 2)).over(dec(100, 0)).times(dec(7, 0)));
    // And one that rested does not.
    let mut rested = Account::new();
    rested.fill(Side::Buy, OrderRole::Maker, dec(70, 2), dec(10, 0));
    assert_eq!(rested.entry_fee, dec(0, 0));
}

#[test]
fn maker_then_taker_entry_and_profit_exit_reconcile() {
    let mut a = Account::new();
    a.fill(Side::Buy, OrderRole::Maker, dec(43, 2), dec(10, 0));
    assert_eq!(a.entry_fee, dec(0, 0));
    a.fill(Side::Sell, OrderRole::Maker, dec(95, 2), dec(10, 0));
    a.assert_reconciled();
    assert_eq!(a.net(), dec(520, 2));
}

#[test]
fn a_mixed_role_position_charges_each_leg_by_what_it_did() {
    let mut a = Account::new();
    a.fill(Side::Buy, OrderRole::Maker, dec(43, 2), dec(4, 0));
    assert_eq!(a.entry_fee, dec(0, 0));
    a.fill(Side::Buy, OrderRole::Taker, dec(45, 2), dec(6, 0));
    // 4 at 0.43 and 6 at 0.45.
    assert_eq!(a.paid_in, dec(442, 2));
    let fee = taker_pct(dec(45, 2)).over(dec(100, 0)).times(dec(45, 2)).times(dec(6, 0));
    assert_eq!(a.entry_fee, fee);
    assert!(fee.is_positive());
    a.fill(Side::Sell, OrderRole::Taker, dec(95, 2), dec(10, 0));
    a.assert_reconciled();
    let exit_fee = taker_pct(dec(95, 2)).over(dec(100, 0)).times(dec(95, 1));
    assert_eq!(a.net(), dec(95, 1).minus(dec(442, 2)).minus(fee).minus(exit_fee));
}

#[test]
fn reconciliation_gap_fills_reconcile() {
    let mut a = Account::new();
    a.fill(Side::Buy, OrderRole::Taker, dec(62, 2), dec(4, 0));
    a.fill(Side::Sell, OrderRole::Taker, dec(40, 2), dec(4, 0));
    a.assert_reconciled();
    assert!(a.net().is_negative());
}

#[test]
fn the_identity_holds_mid_flight_and_entry_cost_is_not_the_held_basis() {
    let mut a = Account::new();
    a.fill(Side::Buy, OrderRole::Taker, dec(43, 2), dec(10, 0));
    a.fill(Side::Sell, OrderRole::Taker, dec(60, 2), dec(4, 0));
    assert_eq!(a.paid_in, dec(430, 2));
    // What the six shares that are left cost.
    let held = a.paid_in.minus(a.paid_in.over(dec(10, 0)).times(dec(4, 0)));
    assert_eq!(held, dec(258, 2));
    assert!(held.less(a.paid_in));
    let cash_in = a.paid_in.plus(a.entry_fee);
    let cash_back = a.came_back.minus(a.exit_fee);
    assert_eq!(a.cash, dec(1000, 0).minus(cash_in).plus(cash_back));
    let wrong = dec(1000, 0).minus(held.plus(a.entry_fee)).plus(cash_back);
    assert_eq!(wrong.minus(a.cash), a.paid_in.minus(held));
}

#[test]
fn a_fill_goes_where_it_belongs() {
    let mut c = kernel(900);
    let open = vec![held(dec(10, 0), dec(4, 0))];
    let buy = fill(Side::Buy, OrderRole::Maker, dec(40, 2), dec(5, 0));
    match c.project_fill_delta(&buy, &open, 1) {
        Projection::Enters { target: EntryTarget::Held { position_id } } => {
            assert_eq!(position_id, "pos_1")
        }
        other => panic!("{other:?}"),
    }
    match c.project_fill_delta(&buy, &Vec::new(), 1) {
        Projection::Enters { target: EntryTarget::New { params } } => {
            assert_eq!(params.token_id, "tok");
            assert_eq!(params.expires_at_ms, 1_800_000);
        }
        other => panic!("{other:?}"),
    }
    let sell = fill(Side::Sell, OrderRole::Maker, dec(60, 2), dec(5, 0));
    match c.project_fill_delta(&sell, &open, 1) {
        Projection::Sells { from } => assert_eq!(from.id, "pos_1"),
        other => panic!("{other:?}"),
    }
    let stray = c.project_fill_delta(&sell, &Vec::new(), 1);
    assert!(matches!(stray, Projection::Stray { after: AfterExit::Nothing }));
    let back = fill(Side::Sell, OrderRole::Maker, dec(60, 2), dec(-5, 0));
    match c.project_fill_delta(&back, &Vec::new(), 1) {
        Projection::Stray { after: AfterExit::Fails { error } } => {
            assert_eq!(error.code, CoreErrorCode::Internal)
        }
        other => panic!("{other:?}"),
    }
}

#[test]
fn an_external_sell_of_everything_closes() {
    let mut c = kernel(900);
    let tokens = vec!["tok".to_string()];
    c.exit_reasons.note_exit_reason("tok", ExitReason::StopLoss, &tokens);
    let t = outside(dec(10, 0), dec(40, 2), Some(true), 1_000);
    assert!(!c.after_external_sell(&t, Some(dec(3, 0))));
    assert_eq!(c.exit_reasons.len(), 1);
    assert!(c.after_external_sell(&t, Some(dec(0, 0))));
    assert_eq!(c.exit_reasons.len(), 0);
    assert!(c.after_external_sell(&t, None));
}

#[test]
fn closed_trade_lands_in_the_strategy_ledger() {
    let mut c = kernel(900);
    let seed = dec(1000, 0);
    // The entry rests at 0.39 and is hit; the exit rests at 0.95 and is hit.
    let mut entry = fill(Side::Buy, OrderRole::Maker, dec(39, 2), dec(10, 0));
    entry.strategy = "spread_arb".to_string();
    let bought = c.fill_cash(&entry, &shipped(), &shipped(), dec(18, 1));
    assert!(matches!(
        c.project_fill_delta(&entry, &Vec::new(), 1_013_000),
        Projection::Enters { .. }
    ));
    let mut p = held(dec(10, 0), dec(39, 1));
    p.strategy = "spread_arb".to_string();
    p.entry_price = dec(39, 2);
    let mut exit = fill(Side::Sell, OrderRole::Maker, dec(95, 2), dec(10, 0));
    exit.strategy = "spread_arb".to_string();
    let sold = c.fill_cash(&exit, &shipped(), &shipped(), dec(18, 1));
    match c.project_fill_delta(&exit, &vec![p], 1_014_200) {
        Projection::Sells { from } => assert_eq!(from.id, "pos_1"),
        other => panic!("{other:?}"),
    }
    let cash = book(book(seed, &bought.moves), &sold.moves);
    let mut rec = closed(dec(95, 2), cash.minus(seed), ExitReason::TakeProfit);
    rec.strategy = "spread_arb".to_string();
    rec.entry_price = dec(39, 2);
    c.on_position_closed(&rec, calm(), rec.net_pnl_usd, None);

    let names = vec!["spread_arb".to_string()];
    let rows = c.strategy_stats(&names, &names, &vec![None], &Vec::new());
    assert_eq!(rows[0].closed_trades, 1);
    assert_eq!(rows[0].wins, 1);
    assert_eq!(rows[0].losses, 0);
    assert!(rows[0].net_pnl_usd.is_positive());
    // Both legs rested on the book, so nothing was charged.
    let rec_fees = bought.fee_usd.plus(sold.fee_usd);
    assert_eq!(rec_fees, dec(0, 0));
    assert_eq!(rows[0].fees_usd, rec_fees);
    assert_eq!(rows[0].net_pnl_usd, rec.net_pnl_usd);
    assert_eq!(rows[0].net_pnl_usd, dec(56, 1));
    assert_eq!(rows[0].open_notional_usd, dec(0, 0));
}

#[test]
fn a_used_up_budget_is_told_with_the_losing_close() {
    let mut c = kernel(900);
    c.config.positions.max_daily_loss_equity_pct = dec(5, 0);
    let done = closed(dec(20, 2), dec(-2, 0), ExitReason::StopLoss);
    let trip = DailyTrip {
        realized_pnl_usd: dec(-52, 0),
        limit_usd: dec(50, 0),
        opening_equity_usd: dec(1000, 0),
    };
    let breaker = BreakerVerdict { tripped: true, losses: 3 };
    let events = c.on_position_closed(&done, breaker, dec(-52, 0), Some(trip));
    assert_eq!(events.len(), 3);
    assert!(matches!(events[0], Event::PositionClosed { .. }));
    match &events[2] {
        Event::RiskAlert { code, message } => {
            assert_eq!(*code, CoreErrorCode::RiskRejected);
            assert!(message.starts_with(
                "DAILY LOSS LIMIT REACHED: realized $-52 against a $50 cap (5% of the day's opening equity $1000)"
            ));
        }
        other => panic!("{other:?}"),
    }
}
