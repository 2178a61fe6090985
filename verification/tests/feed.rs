//! Market data: the books it brings, the resting orders it fills, and the closes that follow.
use blitzkrieg_core::config::{CoreConfig, PositionConfig, RiskConfig};
use blitzkrieg_core::decimal::Decimal;
use blitzkrieg_core::entries::{
    archive_stamp, shadow_feed, CryptoMarket, DataEvent, ShadowFeed,
};
use blitzkrieg_core::exits::{
    marketable_exit_price, parse_direction, write_direction, ExitRequest,
};
use blitzkrieg_core::model::{
    CashFlows, ExitReason, FillPolicy, Mode, OpenPosition, OrderRequest, OrderRole, OrderStatus,
    Side, SignalDirection, TrackedOrder,
};
use blitzkrieg_core::placing::{try_maker_fill, MakerFill};
use blitzkrieg_core::service::{Core, StrategyExitIntent};

fn dec(num: i64, scale: u32) -> Decimal {
    Decimal::new(num, scale)
}

fn kernel(mode: Mode) -> Core {
    let risk = RiskConfig {
        max_order_notional: dec(100, 0),
        max_order_notional_pct: dec(0, 0),
        max_open_notional_usd: dec(0, 0),
        max_price: dec(99, 2),
    };
    let positions = PositionConfig {
        max_daily_loss_equity_pct: dec(0, 0),
        exit_min_time_left_sec: 0,
    };
    let mut c = CoreConfig::with_defaults(risk, positions, 8_000);
    c.mode = mode;
    c.dry_seed_balance = dec(1000, 0);
    Core::new(c, None, 0)
}

fn buy(price: Decimal, size: Decimal) -> OrderRequest {
    OrderRequest {
        token_id: "tok".to_string(),
        condition_id: "c".to_string(),
        side: Side::Buy,
        mode: FillPolicy::Maker,
        price,
        size,
        internal_key: "k1".to_string(),
        strategy: "spread_arb".to_string(),
        asset: "BTC".to_string(),
        direction: "up".to_string(),
        round_slot: 1,
    }
}

fn registered(id: &str, req: &OrderRequest, maker_timeout_ms: i64, now_ms: i64) -> TrackedOrder {
    TrackedOrder {
        order_id: id.to_string(),
        token_id: req.token_id.clone(),
        condition_id: req.condition_id.clone(),
        side: req.side,
        mode: req.mode,
        price: req.price,
        size: req.size,
        filled_size: dec(0, 0),
        status: OrderStatus::Pending,
        live: true,
        internal_key: req.internal_key.clone(),
        strategy: req.strategy.clone(),
        asset: req.asset.clone(),
        direction: req.direction.clone(),
        round_slot: req.round_slot,
        submitted_at_ms: now_ms,
        updated_at_ms: now_ms,
        maker_timeout_ms,
        escalate_at_ms: None,
        venue_order_id: None,
    }
}

fn held(id: &str, token: &str, shares: Decimal) -> OpenPosition {
    OpenPosition {
        id: id.to_string(),
        strategy: "spread_arb".to_string(),
        asset: "BTC".to_string(),
        direction: SignalDirection::Up,
        token_id: token.to_string(),
        condition_id: "cond".to_string(),
        entry_price: dec(40, 2),
        current_price: dec(40, 2),
        prev_price: dec(40, 2),
        shares,
        cost_usd: dec(80, 2),
        was_maker_entry: false,
        entry_fee_pct: dec(0, 0),
        entry_role: OrderRole::Taker,
        exit_role: OrderRole::Taker,
        target_exit_price: None,
        entered_at_ms: 1,
        expires_at_ms: 1_800_000,
        last_book_ts: 0,
        flows: CashFlows {
            entry_cost_usd: dec(80, 2),
            entry_fee_usd: dec(0, 0),
            exit_fee_usd: dec(0, 0),
            proceeds_usd: dec(0, 0),
            opened_shares: shares,
        },
    }
}

/// An order that rests on the book.
fn resting(req: &OrderRequest, now_ms: i64) -> TrackedOrder {
    let mut o = registered("dry_1", req, 0, now_ms);
    o.status = OrderStatus::Live;
    o
}

fn book(bids: Vec<(Decimal, Decimal)>, asks: Vec<(Decimal, Decimal)>, now_ms: i64) -> DataEvent {
    DataEvent::Book { token_id: "tok".to_string(), bids, asks, now_ms }
}

fn round(now_ms: i64) -> DataEvent {
    DataEvent::RoundMarkets {
        markets: vec![CryptoMarket {
            asset: "BTC".to_string(),
            up_token_id: "tok".to_string(),
            down_token_id: "d".to_string(),
            up_price: dec(6, 1),
            down_price: dec(4, 1),
        }],
        now_ms,
    }
}

/// Whether the best ask of the kernel's book reaches a resting bid.
fn crosses(c: &Core, o: &TrackedOrder) -> bool {
    match c.books.get("tok") {
        Some(b) => b.asks.len() > 0 && !o.price.less(b.asks[0].0),
        None => false,
    }
}

/// What the crossing levels of the kernel's book offer a resting bid, at most what it still wants.
fn offered(c: &Core, o: &TrackedOrder) -> Decimal {
    let mut depth = dec(0, 0);
    for (price, size) in &c.books.get("tok").unwrap().asks {
        if !o.price.less(*price) {
            depth = depth.plus(*size);
        }
    }
    depth.min(o.size.minus(o.filled_size))
}

/// Brings a book and fills the resting order as far as the book does.
fn hit(c: &mut Core, o: &mut TrackedOrder, ev: DataEvent, now_ms: i64) -> Option<MakerFill> {
    let ids = c.engine_on_data(&ev, &vec![o.clone()], &Vec::new());
    if ids.is_empty() {
        return None;
    }
    assert_eq!(ids, vec![o.order_id.clone()]);
    let f = try_maker_fill(o, crosses(c, o), o.submitted_at_ms, true, offered(c, o), now_ms);
    if let Some(f) = &f {
        o.filled_size = o.filled_size.plus(f.size);
        if !o.filled_size.less(o.size) {
            o.live = false;
            o.status = OrderStatus::Filled;
        } else {
            o.status = OrderStatus::PartiallyFilled;
        }
    }
    f
}

#[test]
fn engine_feed_populates_core_books_and_enables_exits() {
    let mut c = kernel(Mode::Dry);
    let now: i64 = 1_000_000_000;
    c.engine_on_data(&round(now), &Vec::new(), &Vec::new());
    let low = book(vec![(dec(43, 2), dec(100, 0))], vec![(dec(45, 2), dec(100, 0))], now);
    c.engine_on_data(&low, &Vec::new(), &Vec::new());
    assert_eq!(c.books.get("tok").unwrap().asks, vec![(dec(45, 2), dec(100, 0))]);

    // A position is held; the book rises and the exit policy asks for a close at the bid.
    let high = book(vec![(dec(95, 2), dec(100, 0))], vec![(dec(97, 2), dec(100, 0))], now + 1000);
    c.engine_on_data(&high, &Vec::new(), &vec!["tok".to_string()]);
    let bid = c.books.get("tok").unwrap().bids[0].0;
    assert_eq!(bid, dec(95, 2));
    let positions = vec![held("pos_1", "tok", dec(10, 0))];
    let requests = vec![ExitRequest {
        position_id: "pos_1".to_string(),
        exit_price: bid,
        reason: ExitReason::TakeProfit,
        use_maker: false,
    }];
    let jobs = c.exit_jobs(&positions, &requests, &Vec::new(), &Vec::new());
    assert_eq!(jobs.len(), 1);
    assert_eq!(jobs[0].token_id, "tok");
    let open = vec!["tok".to_string()];
    let order = c.exit_order(&jobs[0], false, Some(dec(10, 0)), &open, now + 1200).unwrap();
    assert_eq!(order.side, Side::Sell);
    assert_eq!(order.mode, FillPolicy::Taker);
    assert!(positions[0].entry_price.less(order.price));
    assert_eq!(order.price, dec(93, 2));
    assert_eq!(order.size, dec(10, 0));
    assert_eq!(order.internal_key, "exit:tok:TakeProfit");
    assert_eq!(c.exit_reasons.get("tok"), Some(ExitReason::TakeProfit));
    assert_eq!(c.stats.rounds, 1);
    assert_eq!(c.stats.books, 2);
}

#[test]
fn engine_feed_cross_fills_resting_maker() {
    let mut c = kernel(Mode::Dry);
    let now: i64 = 1_000_000_000;
    c.engine_on_data(&round(now), &Vec::new(), &Vec::new());
    let mut o = resting(&buy(dec(43, 2), dec(10, 0)), now);
    let ev = book(vec![(dec(43, 2), dec(100, 0))], vec![(dec(45, 2), dec(100, 0))], now);
    assert!(hit(&mut c, &mut o, ev, now).is_none());
    assert_eq!(o.status, OrderStatus::Live);

    let ev = book(vec![(dec(41, 2), dec(100, 0))], vec![(dec(42, 2), dec(100, 0))], now + 500);
    let f = hit(&mut c, &mut o, ev, now + 500).unwrap();
    assert_eq!(o.status, OrderStatus::Filled);
    assert_eq!(o.filled_size, dec(10, 0));
    // At the resting limit, not at the ask that crossed it.
    assert_eq!(f.price, dec(43, 2));
    assert_eq!(f.trade_id, "dry_1:1000000500:10");
}

#[test]
fn engine_feed_does_not_fill_maker_without_cross() {
    let mut c = kernel(Mode::Dry);
    let now: i64 = 1_000_000_000;
    let ev = book(vec![(dec(43, 2), dec(100, 0))], vec![(dec(45, 2), dec(100, 0))], now);
    c.engine_on_data(&ev, &Vec::new(), &Vec::new());
    let mut o = resting(&buy(dec(43, 2), dec(10, 0)), now);
    for i in 1..5 {
        let at: i64 = now + i * 100;
        let ev = book(vec![(dec(43, 2), dec(100, 0))], vec![(dec(44, 2), dec(100, 0))], at);
        assert!(hit(&mut c, &mut o, ev, at).is_none());
    }
    assert_eq!(o.status, OrderStatus::Live);
    assert_eq!(o.filled_size, dec(0, 0));
}

#[test]
fn a_live_kernel_leaves_the_fills_to_the_venue() {
    let mut c = kernel(Mode::Live);
    let mut o = resting(&buy(dec(43, 2), dec(10, 0)), 0);
    let ev = book(Vec::new(), vec![(dec(42, 2), dec(100, 0))], 1);
    assert!(hit(&mut c, &mut o, ev, 1).is_none());
    assert!(c.books.get("tok").is_some());
}

#[test]
fn default_model_fills_a_crossing_maker_at_its_own_limit() {
    let mut c = kernel(Mode::Dry);
    let mut o = resting(&buy(dec(40, 2), dec(10, 0)), 1_000);
    let ev = book(vec![(dec(39, 2), dec(100, 0))], vec![(dec(40, 2), dec(100, 0))], 1_100);
    let f = hit(&mut c, &mut o, ev, 1_100).unwrap();
    assert_eq!(o.status, OrderStatus::Filled);
    assert_eq!(f.price, dec(40, 2));
}

#[test]
fn maker_latency_delays_the_crossing_fill() {
    let o = resting(&buy(dec(40, 2), dec(10, 0)), 1_000);
    let eligible: i64 = 1_000 + 5_000;
    assert!(try_maker_fill(&o, true, eligible, true, dec(10, 0), 1_100).is_none());
    let f = try_maker_fill(&o, true, eligible, true, dec(10, 0), 6_100).unwrap();
    assert_eq!(f.price, dec(40, 2));
    assert_eq!(f.size, dec(10, 0));
}

#[test]
fn zero_fill_probability_never_fills_on_a_crossing() {
    let o = resting(&buy(dec(40, 2), dec(10, 0)), 1_000);
    for t in [1_100i64, 2_000, 9_000] {
        assert!(try_maker_fill(&o, true, 1_000, false, dec(10, 0), t).is_none());
    }
}

#[test]
fn crossing_depth_limits_the_maker_fill_and_the_books_agree() {
    let mut c = kernel(Mode::Dry);
    let mut o = resting(&buy(dec(40, 2), dec(10, 0)), 1_000);
    let f = hit(&mut c, &mut o, book(Vec::new(), vec![(dec(40, 2), dec(4, 0))], 1_100), 1_100);
    let f = f.unwrap();
    assert_eq!(f.size, dec(4, 0));
    assert_eq!(o.filled_size, dec(4, 0));
    assert_eq!(o.status, OrderStatus::PartiallyFilled);
    assert_eq!(o.size.minus(o.filled_size), dec(6, 0));
    // What was paid: 4 at 0.40. What is still committed: 6 at 0.40.
    assert_eq!(f.price.times(f.size), dec(16, 1));
    let again = c.restore_orders(0, "", &vec![o]);
    assert_eq!(again.reservations, vec![("dry_1".to_string(), dec(24, 1))]);
}

#[test]
fn a_partially_filled_maker_keeps_its_remainder_cancellable() {
    let mut c = kernel(Mode::Dry);
    let mut o = resting(&buy(dec(40, 2), dec(10, 0)), 1_000);
    hit(&mut c, &mut o, book(Vec::new(), vec![(dec(40, 2), dec(4, 0))], 1_100), 1_100);
    let orders = vec![o];
    assert_eq!(c.cancel_all(&orders, None), vec!["dry_1".to_string()]);
    let mut gone = orders;
    gone[0].live = false;
    gone[0].status = OrderStatus::Cancelled;
    assert_eq!(gone[0].filled_size, dec(4, 0));
    assert!(c.restore_orders(0, "", &gone).reservations.is_empty());
}

#[test]
fn partial_maker_fills_accumulate_until_the_order_is_whole() {
    let mut c = kernel(Mode::Dry);
    let mut o = resting(&buy(dec(40, 2), dec(10, 0)), 1_000);
    hit(&mut c, &mut o, book(Vec::new(), vec![(dec(40, 2), dec(4, 0))], 1_100), 1_100);
    assert_eq!(o.filled_size, dec(4, 0));
    hit(&mut c, &mut o, book(Vec::new(), vec![(dec(39, 2), dec(3, 0))], 1_200), 1_200);
    assert_eq!(o.filled_size, dec(7, 0));
    assert_eq!(o.status, OrderStatus::PartiallyFilled);
    let f = hit(&mut c, &mut o, book(Vec::new(), vec![(dec(40, 2), dec(10, 0))], 1_300), 1_300);
    assert_eq!(f.unwrap().price, dec(40, 2));
    assert_eq!(o.filled_size, dec(10, 0));
    assert_eq!(o.status, OrderStatus::Filled);
}

#[test]
fn two_partial_chunks_in_one_millisecond_both_book() {
    let mut c = kernel(Mode::Dry);
    let mut o = resting(&buy(dec(40, 2), dec(10, 0)), 1_000);
    let a = hit(&mut c, &mut o, book(Vec::new(), vec![(dec(40, 2), dec(3, 0))], 1_100), 1_100);
    let b = hit(&mut c, &mut o, book(Vec::new(), vec![(dec(40, 2), dec(4, 0))], 1_100), 1_100);
    assert_eq!(o.filled_size, dec(7, 0));
    assert_ne!(a.unwrap().trade_id, b.unwrap().trade_id);
}

#[test]
fn a_crossing_book_with_no_volume_leaves_the_maker_resting() {
    let mut c = kernel(Mode::Dry);
    let mut o = resting(&buy(dec(40, 2), dec(10, 0)), 1_000);
    let ev = book(Vec::new(), vec![(dec(40, 2), dec(0, 0))], 1_100);
    assert!(hit(&mut c, &mut o, ev, 1_100).is_none());
    assert!(o.live);
    assert_eq!(o.filled_size, dec(0, 0));
    let again = c.restore_orders(0, "", &vec![o]);
    assert_eq!(again.reservations, vec![("dry_1".to_string(), dec(4, 0))]);
}

#[test]
fn best_prices_bring_a_book_of_one_level() {
    let mut c = kernel(Mode::Dry);
    let top = DataEvent::TopOfBook {
        token_id: "tok".to_string(),
        best_bid: Some(dec(43, 2)),
        best_ask: None,
        now_ms: 1,
    };
    c.engine_on_data(&top, &Vec::new(), &Vec::new());
    assert_eq!(c.books.get("tok").unwrap().bids, vec![(dec(43, 2), dec(1, 0))]);
    assert!(c.books.get("tok").unwrap().asks.is_empty());
    // Best prices without a side leave the book as it is.
    let nothing = DataEvent::TopOfBook {
        token_id: "tok".to_string(),
        best_bid: Some(dec(0, 0)),
        best_ask: None,
        now_ms: 2,
    };
    c.engine_on_data(&nothing, &Vec::new(), &Vec::new());
    assert_eq!(c.books.get("tok").unwrap().bids.len(), 1);
    assert_eq!(c.stats.tops, 2);
    let spot = DataEvent::Spot { asset: "BTC".to_string(), price: dec(60_000, 0), now_ms: 3 };
    c.engine_on_data(&spot, &Vec::new(), &Vec::new());
    assert_eq!(c.stats.spots, 1);
}

#[test]
fn events_are_archived_under_their_own_instant() {
    assert_eq!(archive_stamp(5, 9), 5);
    assert_eq!(archive_stamp(0, 9), 9);
    assert_eq!(archive_stamp(-1, 9), 9);
}

#[test]
fn the_shadow_sees_books_and_rounds() {
    let ev = book(Vec::new(), Vec::new(), 7);
    assert!(matches!(shadow_feed(&ev, false), ShadowFeed::Nothing));
    match shadow_feed(&ev, true) {
        ShadowFeed::Tick { token_id, now_ms } => {
            assert_eq!(token_id, "tok");
            assert_eq!(now_ms, 7);
        }
        other => panic!("{other:?}"),
    }
    match shadow_feed(&round(8), true) {
        ShadowFeed::Round { tokens, now_ms } => {
            assert_eq!(tokens, vec!["tok".to_string(), "d".to_string()]);
            assert_eq!(now_ms, 8);
        }
        other => panic!("{other:?}"),
    }
    let spot = DataEvent::Spot { asset: "BTC".to_string(), price: dec(1, 0), now_ms: 3 };
    assert!(matches!(shadow_feed(&spot, true), ShadowFeed::Nothing));
}

#[test]
fn a_strategy_closes_its_own_position_once() {
    let mut c = kernel(Mode::Dry);
    let wish = StrategyExitIntent { token_id: "tok".to_string(), reason: "fade".to_string() };
    let lost = StrategyExitIntent { token_id: "gone".to_string(), reason: "fade".to_string() };
    c.engine_evaluate(vec![wish, lost], 0);
    assert_eq!(c.stats.evaluations, 1);
    let positions = vec![held("pos_1", "tok", dec(10, 0))];
    let jobs = c.exit_jobs(&positions, &Vec::new(), &Vec::new(), &Vec::new());
    assert_eq!(jobs.len(), 1);
    assert_eq!(jobs[0].reason, ExitReason::StrategySignal);
    assert_eq!(jobs[0].price, dec(40, 2));
    assert!(!jobs[0].use_maker);
    // The wishes are used up.
    assert!(c.exit_jobs(&positions, &Vec::new(), &Vec::new(), &Vec::new()).is_empty());
}

#[test]
fn what_is_held_to_settlement_is_spared() {
    let mut c = kernel(Mode::Dry);
    let positions = vec![held("pos_1", "tok", dec(10, 0))];
    let requests = vec![ExitRequest {
        position_id: "pos_1".to_string(),
        exit_price: dec(30, 2),
        reason: ExitReason::ForceExit,
        use_maker: false,
    }];
    let holders = vec!["spread_arb".to_string()];
    assert!(c.exit_jobs(&positions, &requests, &holders, &Vec::new()).is_empty());
    assert_eq!(c.exit_jobs(&positions, &requests, &Vec::new(), &Vec::new()).len(), 1);
    // A live kernel does not settle by itself.
    let mut live = kernel(Mode::Live);
    assert_eq!(live.exit_jobs(&positions, &requests, &holders, &Vec::new()).len(), 1);
}

#[test]
fn a_close_that_left_shares_over_is_followed_up() {
    let mut c = kernel(Mode::Dry);
    let positions = vec![held("pos_1", "tok", dec(6, 0))];
    let mut sell = buy(dec(60, 2), dec(4, 0));
    sell.side = Side::Sell;
    let mut sold = registered("dry_2", &sell, 0, 5);
    sold.status = OrderStatus::Filled;
    sold.filled_size = dec(4, 0);
    sold.live = false;
    let jobs = c.exit_jobs(&positions, &Vec::new(), &Vec::new(), &vec![sold.clone()]);
    assert_eq!(jobs.len(), 1);
    assert_eq!(jobs[0].reason, ExitReason::ForceExit);
    assert_eq!(jobs[0].internal_key, "exit-residual:tok");
    // While another sell works nothing is added.
    let mut working = registered("dry_3", &sell, 0, 6);
    working.status = OrderStatus::Live;
    let jobs = c.exit_jobs(&positions, &Vec::new(), &Vec::new(), &vec![sold, working]);
    assert!(jobs.is_empty());
}

#[test]
fn a_close_is_not_sent_twice() {
    let mut c = kernel(Mode::Dry);
    let positions = vec![held("pos_1", "tok", dec(10, 0))];
    let requests = vec![ExitRequest {
        position_id: "pos_1".to_string(),
        exit_price: dec(50, 2),
        reason: ExitReason::TakeProfit,
        use_maker: true,
    }];
    let jobs = c.exit_jobs(&positions, &requests, &Vec::new(), &Vec::new());
    let open = vec!["tok".to_string()];
    assert!(c.exit_order(&jobs[0], true, Some(dec(10, 0)), &open, 1).is_none());
    assert!(c.exit_order(&jobs[0], false, None, &open, 1).is_none());
    assert_eq!(c.exit_reasons.get("tok"), None);
    let order = c.exit_order(&jobs[0], false, Some(dec(10, 0)), &open, 1).unwrap();
    // A maker's close states the price itself.
    assert_eq!(order.mode, FillPolicy::Maker);
    assert_eq!(order.price, dec(50, 2));
}

#[test]
fn a_taker_exit_reaches_below_the_bid() {
    assert_eq!(marketable_exit_price(dec(50, 2), 2), dec(48, 2));
    assert_eq!(marketable_exit_price(dec(2, 2), 5), dec(1, 2));
    assert_eq!(marketable_exit_price(dec(50, 2), -3), dec(50, 2));
    assert_eq!(marketable_exit_price(dec(0, 0), 2), dec(0, 0));
}

#[test]
fn directions_are_read_and_written() {
    assert_eq!(parse_direction("down"), SignalDirection::Down);
    assert_eq!(parse_direction("DOWN"), SignalDirection::Down);
    assert_eq!(parse_direction("up"), SignalDirection::Up);
    assert_eq!(parse_direction("sideways"), SignalDirection::Up);
    assert_eq!(write_direction(SignalDirection::Down), "down");
    assert_eq!(write_direction(SignalDirection::Up), "up");
}
