//! Orders placed as a whole.
use blitzkrieg_core::config::{CoreConfig, PositionConfig, RiskConfig};
use blitzkrieg_core::decimal::Decimal;
use blitzkrieg_core::model::{
    CoreError, CoreErrorCode, Event, FillPolicy, Mode, OrderRequest, OrderStatus, Side,
};
use blitzkrieg_core::orders::cancel_release;
use blitzkrieg_core::placing::{GateAnswers, Submitted, TakerView};
use blitzkrieg_core::service::Core;
use blitzkrieg_core::submission::{MakerView, Replies};

fn dec(num: i64, scale: u32) -> Decimal {
    Decimal::new(num, scale)
}

fn config(mode: Mode) -> CoreConfig {
    let risk = RiskConfig {
        max_order_notional: dec(3, 0),
        max_order_notional_pct: dec(0, 0),
        max_open_notional_usd: dec(0, 0),
        max_price: dec(99, 2),
    };
    let positions = PositionConfig {
        max_daily_loss_equity_pct: dec(0, 0),
        exit_min_time_left_sec: 0,
    };
    let mut c = CoreConfig::with_defaults(risk, positions, 8_000);
    c.mode = mode;
    c
}

fn kernel(mode: Mode) -> Core {
    Core::new(config(mode), None, 0)
}

fn order(mode: FillPolicy, price: Decimal, size: Decimal, key: &str) -> OrderRequest {
    OrderRequest {
        token_id: "tok".to_string(),
        condition_id: "cond".to_string(),
        side: Side::Buy,
        mode,
        price,
        size,
        internal_key: key.to_string(),
        strategy: "spread_arb".to_string(),
        asset: "BTC".to_string(),
        direction: "up".to_string(),
        round_slot: 1,
    }
}

/// Every part of the kernel lets the order through, and nothing is on the book.
fn clear() -> Replies {
    Replies {
        gates: GateAnswers {
            risk: None,
            breaker_until_ms: None,
            cannot_open: None,
            holds_to_settlement: false,
        },
        unfunded: None,
        taker: TakerView { fill_price: None, crosses: false, depth: dec(0, 0), best: None },
        maker: MakerView { crosses: false, eligible_at_ms: 0, wins: true, chunk: dec(0, 0) },
    }
}

fn refusal(code: CoreErrorCode, why: &str) -> Option<CoreError> {
    Some(CoreError::new(code, why.to_string()))
}

#[test]
fn risk_and_ledger_reject_oversize_and_kill() {
    // 0.4 * 10 = 4 is above the cap of 3: refused before anything is reserved.
    let mut c = kernel(Mode::Dry);
    let mut replies = clear();
    replies.gates.risk = refusal(CoreErrorCode::RiskRejected, "notional 4.0 exceeds 3");
    let q = order(FillPolicy::Taker, dec(4, 1), dec(10, 0), "k1");
    let e = c.place_outcome(&q, replies, &Vec::new(), 0, 1).unwrap_err();
    assert_eq!(e.code, CoreErrorCode::RiskRejected);
    assert_eq!(c.next_id, 1);

    // A buy of 3 does not find its cash.
    let mut c = kernel(Mode::Dry);
    let mut replies = clear();
    replies.unfunded = refusal(CoreErrorCode::InsufficientFunds, "need 3.0, have 2");
    let q = order(FillPolicy::Taker, dec(3, 1), dec(10, 0), "k2");
    let e = c.place_outcome(&q, replies, &Vec::new(), 0, 1).unwrap_err();
    assert_eq!(e.code, CoreErrorCode::InsufficientFunds);
    assert_eq!(c.last_error.as_ref().unwrap().message, "need 3.0, have 2");
    assert_eq!(c.next_id, 2);

    let mut c = kernel(Mode::Dry);
    c.kill("manual".to_string());
    assert!(c.is_killed());
    let mut replies = clear();
    replies.gates.risk = refusal(CoreErrorCode::KillSwitchActive, "manual");
    let q = order(FillPolicy::Taker, dec(4, 1), dec(1, 0), "k3");
    let e = c.place_outcome(&q, replies, &Vec::new(), 0, 1).unwrap_err();
    assert_eq!(e.code, CoreErrorCode::KillSwitchActive);
}

#[test]
fn a_sell_needs_no_cash() {
    let mut c = kernel(Mode::Dry);
    let mut replies = clear();
    replies.unfunded = refusal(CoreErrorCode::InsufficientFunds, "nothing left");
    let mut q = order(FillPolicy::Maker, dec(4, 1), dec(5, 0), "k1");
    q.side = Side::Sell;
    let p = c.place_outcome(&q, replies, &Vec::new(), 0, 1).unwrap();
    assert_eq!(p.reserve, None);
    assert_eq!(p.outcome.status, OrderStatus::Live);
}

#[test]
fn a_taker_that_the_book_fills_is_filled() {
    let mut c = kernel(Mode::Dry);
    let mut replies = clear();
    replies.taker.fill_price = Some(dec(40, 2));
    let q = order(FillPolicy::Taker, dec(40, 2), dec(5, 0), "k1");
    let p = c.place_outcome(&q, replies, &Vec::new(), 0, 7).unwrap();
    assert_eq!(p.outcome.order_id, "dry_1");
    assert_eq!(p.outcome.status, OrderStatus::Filled);
    assert!(p.outcome.rejection.is_none());
    assert_eq!(p.reserve, Some(dec(2, 0)));
    assert_eq!(p.order.order_id, "dry_1");
    assert_eq!(p.order.size, dec(5, 0));
    assert_eq!(p.order.filled_size, dec(0, 0));
    assert_eq!(p.order.submitted_at_ms, 7);
    assert!(p.fill.is_none());
    assert!(p.events.is_empty());
    match p.settled {
        Submitted::Fills { trade_id, size, price } => {
            assert_eq!(trade_id, "dry_1:7");
            assert_eq!(size, dec(5, 0));
            assert_eq!(price, dec(40, 2));
        }
        other => panic!("{other:?}"),
    }
}

#[test]
fn a_refused_order_is_the_last_error() {
    let mut c = kernel(Mode::Dry);
    let q = order(FillPolicy::Taker, dec(40, 2), dec(5, 0), "k1");
    let p = c.place_outcome(&q, clear(), &Vec::new(), 0, 7).unwrap();
    assert_eq!(p.outcome.status, OrderStatus::Rejected);
    let why = p.outcome.rejection.unwrap();
    assert_eq!(why.code, CoreErrorCode::WouldCross);
    assert!(why.message.starts_with("taker_no_crossing_liquidity"));
    let last = c.last_error.as_ref().unwrap();
    assert_eq!(last.ts_ms, 7);
    assert_eq!(last.code, CoreErrorCode::WouldCross);
    assert_eq!(last.message, why.message);
    assert_eq!(p.events.len(), 1);
    assert!(matches!(&p.events[0], Event::Error { error: _ }));
    assert!(matches!(p.settled, Submitted::Refused { error: _, release: true }));
}

#[test]
fn a_placement_ends_as_the_order_stands() {
    let mut c = kernel(Mode::Dry);
    let q = order(FillPolicy::Maker, dec(40, 2), dec(5, 0), "k1");
    let p = c.place_outcome(&q, clear(), &Vec::new(), 0, 7).unwrap();
    let id = p.outcome.order_id.clone();
    let o = c.finish_placement(p.outcome, Some(OrderStatus::Live), None, 8).unwrap();
    assert_eq!(o.order_id, id);
    assert_eq!(o.status, OrderStatus::Live);
    assert!(o.rejection.is_none());
    // An order that the order manager does not know is on its way.
    let o = c.finish_placement(o, None, None, 9).unwrap();
    assert_eq!(o.order_id, id);
    assert_eq!(o.status, OrderStatus::Pending);
    assert!(c.last_error.is_none());
}

#[test]
fn an_order_that_the_order_manager_refuses_is_the_last_error() {
    let mut c = kernel(Mode::Dry);
    let q = order(FillPolicy::Maker, dec(40, 2), dec(5, 0), "k1");
    let p = c.place_outcome(&q, clear(), &Vec::new(), 0, 7).unwrap();
    assert!(c.last_error.is_none());
    let failure = refusal(CoreErrorCode::UnknownOrder, "dry_1");
    let e = c.finish_placement(p.outcome, None, failure, 8).unwrap_err();
    assert_eq!(e.code, CoreErrorCode::UnknownOrder);
    assert_eq!(e.message, "dry_1");
    let last = c.last_error.as_ref().unwrap();
    assert_eq!(last.ts_ms, 8);
    assert_eq!(last.code, CoreErrorCode::UnknownOrder);
    assert_eq!(last.message, "dry_1");
}

#[test]
fn a_maker_rests_or_fills_as_it_comes() {
    let mut c = kernel(Mode::Dry);
    let q = order(FillPolicy::MakerThenTaker, dec(40, 2), dec(5, 0), "k1");
    let p = c.place_outcome(&q, clear(), &Vec::new(), 1_000, 7).unwrap();
    assert_eq!(p.outcome.status, OrderStatus::Live);
    assert!(matches!(p.settled, Submitted::Rests { escalate_at_ms: Some(1_007) }));
    let mut replies = clear();
    replies.maker.crosses = true;
    replies.maker.chunk = dec(2, 0);
    let p = c.place_outcome(&q, replies, &Vec::new(), 0, 8).unwrap();
    assert_eq!(p.outcome.order_id, "dry_2");
    assert_eq!(p.outcome.status, OrderStatus::PartiallyFilled);
    assert!(matches!(p.settled, Submitted::Rests { escalate_at_ms: Some(5_008) }));
    let f = p.fill.unwrap();
    assert_eq!(f.trade_id, "dry_2:8:2");
    assert_eq!(f.price, dec(40, 2));
    let mut replies = clear();
    replies.maker.crosses = true;
    replies.maker.chunk = dec(5, 0);
    let q = order(FillPolicy::Maker, dec(40, 2), dec(5, 0), "k2");
    let p = c.place_outcome(&q, replies, &Vec::new(), 0, 9).unwrap();
    assert_eq!(p.outcome.status, OrderStatus::Filled);
}

#[test]
fn a_live_order_waits_for_the_venue() {
    let mut c = kernel(Mode::Live);
    let q = order(FillPolicy::Taker, dec(40, 2), dec(5, 0), "k1");
    let p = c.place_outcome(&q, clear(), &Vec::new(), 0, 1).unwrap();
    assert_eq!(p.outcome.order_id, "live_1");
    assert_eq!(p.outcome.status, OrderStatus::Pending);
    assert!(matches!(p.settled, Submitted::Waits));
}

#[test]
fn an_escalation_that_dies_after_the_maker_does_not_abort_the_pass() {
    // The maker's own 2.00 was all the cash, and the 5 at 0.50 that cross have nothing to reserve.
    let mut c = kernel(Mode::Dry);
    let q = order(FillPolicy::MakerThenTaker, dec(40, 2), dec(5, 0), "k1");
    let p = c.place_outcome(&q, clear(), &Vec::new(), 1_000, 1).unwrap();
    assert_eq!(p.outcome.status, OrderStatus::Live);
    let mut leg = order(FillPolicy::Taker, dec(50, 2), dec(5, 0), "dry_1:escalated");
    leg.round_slot = 1;
    let mut replies = clear();
    replies.taker.fill_price = Some(dec(50, 2));
    replies.unfunded = refusal(CoreErrorCode::InsufficientFunds, "need 2.50, have 2");
    let e = c.place_escalated(&leg, replies, &Vec::new(), 1_002).unwrap_err();
    assert_eq!(e.code, CoreErrorCode::InsufficientFunds);
    // The next order has its turn.
    let mut replies = clear();
    replies.taker.fill_price = Some(dec(50, 2));
    let p = c.place_escalated(&leg, replies, &Vec::new(), 1_002).unwrap();
    assert_eq!(p.outcome.status, OrderStatus::Filled);
}

#[test]
fn an_escalated_leg_passes_the_gates_of_entries() {
    let mut c = kernel(Mode::Dry);
    let leg = order(FillPolicy::Taker, dec(50, 2), dec(5, 0), "dry_1:escalated");
    let mut replies = clear();
    replies.gates.cannot_open = Some("Already in BTC".to_string());
    let e = c.place_outcome(&leg, replies, &Vec::new(), 0, 1).unwrap_err();
    assert_eq!(e.message, "Already in BTC");
    let mut replies = clear();
    replies.gates.cannot_open = Some("Already in BTC".to_string());
    replies.taker.fill_price = Some(dec(50, 2));
    assert!(c.place_escalated(&leg, replies, &Vec::new(), 1).is_ok());
}

#[test]
fn cancel_releases_reservation() {
    let mut c = kernel(Mode::Dry);
    let q = order(FillPolicy::Maker, dec(40, 2), dec(5, 0), "k1");
    let p = c.place_outcome(&q, clear(), &Vec::new(), 0, 1).unwrap();
    // 10 less 2 is available.
    assert_eq!(dec(10, 0).minus(p.reserve.unwrap()), dec(8, 0));
    assert_eq!(cancel_release("dry_1", Some(&p.order)).unwrap(), true);
    assert_eq!(cancel_release("dry_9", None).unwrap_err().code, CoreErrorCode::UnknownOrder);
}

#[test]
fn a_refusal_without_a_reason_is_the_venues() {
    let mut c = kernel(Mode::Live);
    let q = order(FillPolicy::MakerThenTaker, dec(40, 2), dec(5, 0), "k1");
    let p = c.place_outcome(&q, clear(), &Vec::new(), 0, 1).unwrap();
    let e = Core::reject_live(&p.order);
    assert_eq!(e.code, CoreErrorCode::VenueError);
    assert_eq!(e.message, "venue rejected order");
}
