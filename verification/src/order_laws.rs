//! What becomes of an order: which gates it passes, what is registered and reserved for it, how it
//! fills, gives up resting or is cancelled, and what a refusal counts for.
use vstd::prelude::*;

use crate::decimal;
use crate::decimal::Decimal;
use crate::exits;
use crate::model::{
    CoreErrorCode, CoreErrorModel, FillPolicy, Mode, OpenPosition, OrderRequestModel, OrderStatus,
    Side, TrackedOrderModel,
};
use crate::orders;
use crate::orders::{EscalationModel, EscalationStepModel};
use crate::placing;
use crate::placing::{GateAnswers, SubmittedModel, TakerView};
use crate::rejections;
use crate::service;
use crate::service::{CoreModel, SelfCheckItemModel, SelfCheckReportModel};
use crate::submission;
use crate::submission::{Placement, Replies};
use crate::text;

verus! {

// ---------------------------------------------------------------------------------------------
// Gates

/// Whether an intent is still waiting out a refusal of the venue.
pub open spec fn cooling(m: CoreModel, key: Seq<char>, now_ms: i64) -> bool {
    m.place_cooldowns.dom().contains(key) && now_ms < m.place_cooldowns[key].next_ok_ms
}

/// Whether an order completes a pair: a position of the same strategy on the same asset and market, on
/// the other side.
pub open spec fn has_other_half(positions: Seq<OpenPosition>, q: OrderRequestModel) -> bool {
    exists|i: int|
        0 <= i < positions.len() && (#[trigger] positions[i]).asset@ == q.asset
            && positions[i].condition_id@ == q.condition_id && positions[i].strategy@ == q.strategy
            && positions[i].direction != exits::direction_named(q.direction)
}

/// An order is placed just where no gate objects: its intent is not waiting out a refusal, the risk
/// gate has nothing against it, and, for a buy that opens exposure, the books are in order, the breaker
/// does not hold its strategy, and the position book would open it. Of what the book has against it only
/// a second position on the asset is overruled, for the second half of a pair that is held to
/// settlement. A sell passes none of the gates of entries, and neither does a leg of an entry that was
/// begun.
pub proof fn law_an_order_is_placed_where_no_gate_objects(
    m: CoreModel,
    q: OrderRequestModel,
    answers: GateAnswers,
    positions: Seq<OpenPosition>,
    entry_gates: bool,
    now_ms: i64,
)
    ensures
        placing::gate_refusal(m, q, answers, positions, entry_gates, now_ms) is None <==> {
            &&& !cooling(m, q.internal_key, now_ms)
            &&& answers.risk is None
            &&& entry_gates && q.side == Side::Buy ==> {
                &&& !m.audit.halted
                &&& answers.breaker_until_ms is None
                &&& answers.cannot_open matches Some(why) ==> text::starts(why@, "Already in"@)
                    && answers.holds_to_settlement && has_other_half(positions, q)
            }
        },
{
    if placing::completes_pair(positions, q) {
        let i = choose|i: int|
            0 <= i < positions.len() && placing::is_other_half(#[trigger] positions[i], q);
        assert(positions[i].asset@ == q.asset);
    }
    if has_other_half(positions, q) {
        let i = choose|i: int|
            0 <= i < positions.len() && (#[trigger] positions[i]).asset@ == q.asset
                && positions[i].condition_id@ == q.condition_id && positions[i].strategy@
                == q.strategy && positions[i].direction != exits::direction_named(q.direction);
        assert(placing::is_other_half(positions[i], q));
    }
}

/// The gates are asked in turn and the first one that objects is the one that is named: the cooldown,
/// the risk gate in its own words, the audit, the breaker, the position book in its own words.
pub proof fn law_the_first_objection_is_named(
    m: CoreModel,
    q: OrderRequestModel,
    answers: GateAnswers,
    positions: Seq<OpenPosition>,
    now_ms: i64,
)
    ensures
        ({
            let r = placing::gate_refusal(m, q, answers, positions, true, now_ms);
            &&& cooling(m, q.internal_key, now_ms) ==> r is Some && r->0.code
                == CoreErrorCode::RiskRejected
            &&& !cooling(m, q.internal_key, now_ms) ==> {
                &&& answers.risk matches Some(e) ==> r == Some(e@)
                &&& answers.risk is None && q.side == Side::Buy ==> {
                    &&& m.audit.halted ==> r == Some(
                        CoreErrorModel {
                            code: CoreErrorCode::RiskRejected,
                            message: "accounting audit halted new entries: "@ + m.audit.halt_reason,
                            raw: None,
                        },
                    )
                    &&& !m.audit.halted ==> {
                        &&& answers.breaker_until_ms matches Some(t) ==> r == Some(
                            CoreErrorModel {
                                code: CoreErrorCode::RiskRejected,
                                message: "breaker active until "@ + text::int_text(t as int)
                                    + " for strategy "@ + q.strategy,
                                raw: None,
                            },
                        )
                        &&& answers.breaker_until_ms is None && r is Some ==> {
                            &&& answers.cannot_open matches Some(why)
                            &&& r == Some(
                                CoreErrorModel {
                                    code: CoreErrorCode::RiskRejected,
                                    message: why@,
                                    raw: None,
                                },
                            )
                        }
                    }
                }
            }
        }),
{
}

/// On the live path an entry is refused while the books are broken, and every order is refused just
/// where the risk gate refuses it else.
pub proof fn law_a_live_order_meets_the_audit_and_the_risk_gate(
    m: CoreModel,
    q: OrderRequestModel,
    risk: Option<CoreErrorModel>,
)
    ensures
        placing::pending_refusal(m, q, risk) is None <==> risk is None && !(q.side == Side::Buy
            && m.audit.halted),
        !(q.side == Side::Buy && m.audit.halted) ==> placing::pending_refusal(m, q, risk) == risk,
{
}

/// Orders of kernels that run differently never share an id, and only a live kernel calls its orders
/// live.
pub proof fn law_an_order_id_tells_how_the_kernel_runs(m: CoreModel, n: CoreModel)
    requires
        m.config.mode != n.config.mode,
    ensures
        placing::next_order_id(m) != placing::next_order_id(n),
        text::starts(placing::next_order_id(m), "live"@) <==> m.config.mode == Mode::Live,
{
    reveal_strlit("live");
    reveal_strlit("readonly");
    reveal_strlit("dry");
    let a = placing::next_order_id(m);
    let b = placing::next_order_id(n);
    assert(a[0] == placing::id_prefix(m.config.mode)[0]);
    assert(b[0] == placing::id_prefix(n.config.mode)[0]);
    assert("live"@[0] == 'l' && "readonly"@[0] == 'r' && "dry"@[0] == 'd');
    if m.config.mode == Mode::Live {
        assert(a.subrange(0, "live"@.len() as int) =~= "live"@);
    }
    if text::starts(a, "live"@) {
        assert(a.subrange(0, "live"@.len() as int)[0] == 'l');
    }
}

// ---------------------------------------------------------------------------------------------
// Placing

/// A placement registers the order that was asked for, with nothing filled, and reserves a buy's whole
/// size at its limit and nothing for a sell.
pub proof fn law_a_placement_registers_what_was_asked_for(
    p: Placement,
    m: CoreModel,
    q: OrderRequestModel,
    replies: Replies,
    maker_timeout_ms: i64,
    now_ms: i64,
)
    requires
        submission::is_placement(p, m, q, replies, maker_timeout_ms, now_ms),
        q.price.well_formed(),
        q.size.well_formed(),
        q.price.times_plain(q.size),
    ensures
        p.order@.token_id == q.token_id,
        p.order@.condition_id == q.condition_id,
        p.order@.side == q.side,
        p.order@.mode == q.mode,
        p.order@.price == q.price,
        p.order@.size == q.size,
        p.order@.filled_size@ == 0,
        p.order@.status == OrderStatus::Pending,
        p.order@.live,
        p.order@.internal_key == q.internal_key,
        p.order@.strategy == q.strategy,
        p.order@.asset == q.asset,
        p.order@.direction == q.direction,
        p.order@.round_slot == q.round_slot,
        p.order@.submitted_at_ms == now_ms,
        p.order@.maker_timeout_ms == maker_timeout_ms,
        p.order@.order_id == p.outcome@.order_id,
        p.order@.order_id == placing::next_order_id(m),
        q.side == Side::Sell ==> p.reserve is None,
        q.side == Side::Buy ==> (p.reserve matches Some(cash) && cash@ * decimal::one_unit()
            == q.price@ * q.size@),
{
    decimal::lemma_zero();
    decimal::lemma_times_plain(q.price, q.size);
}

/// Where there is a venue an order waits for it. Else a taker fills whole, at the price that the book
/// gives, or not at all, and then a buy gives its reservation back; a maker rests, and one that is meant
/// to cross after a while does so after its own time, or the kernel's where it has none.
pub proof fn law_an_order_fills_whole_or_rests(
    m: CoreModel,
    o: TrackedOrderModel,
    view: TakerView,
    maker_timeout_ms: i64,
    now_ms: i64,
)
    requires
        i64::MIN <= now_ms + maker_timeout_ms <= i64::MAX,
        i64::MIN <= now_ms + m.config.default_maker_timeout_ms <= i64::MAX,
    ensures
        ({
            let r = placing::submitted(m, o, view, maker_timeout_ms, now_ms);
            if m.config.mode == Mode::Live {
                r is Waits
            } else {
                &&& o.mode == FillPolicy::Taker ==> match view.fill_price {
                    Some(at) => {
                        &&& r matches SubmittedModel::Fills { trade_id, size, price }
                        &&& size == o.size
                        &&& price == at
                    },
                    None => {
                        &&& r matches SubmittedModel::Refused { error, release }
                        &&& error.code == CoreErrorCode::WouldCross
                        &&& release == (o.side == Side::Buy)
                    },
                }
                &&& o.mode == FillPolicy::Maker ==> r == (SubmittedModel::Rests {
                    escalate_at_ms: None,
                })
                &&& o.mode == FillPolicy::MakerThenTaker ==> {
                    &&& r matches SubmittedModel::Rests { escalate_at_ms }
                    &&& escalate_at_ms matches Some(at)
                    &&& at - now_ms == if maker_timeout_ms > 0 {
                        maker_timeout_ms
                    } else {
                        m.config.default_maker_timeout_ms
                    }
                }
            }
        }),
{
}

/// A resting order fills in part just where it works and is not full, the book crosses it, it has
/// rested long enough, its turn has come and there is something to take.
pub proof fn law_a_resting_order_fills_when_it_is_hit(
    o: TrackedOrderModel,
    crosses: bool,
    eligible_at_ms: i64,
    wins: bool,
    chunk: Decimal,
    now_ms: i64,
)
    ensures
        placing::maker_fills(o, crosses, eligible_at_ms, wins, chunk, now_ms) <==> {
            &&& o.live
            &&& o.filled_size@ < o.size@
            &&& crosses
            &&& eligible_at_ms <= now_ms
            &&& wins
            &&& chunk@ > 0
        },
{
}

/// A placement says how the order stands: waiting for the venue, filled where all of it filled, in part
/// where a part did, refused with the reason, or resting; and a part that fills as it comes to rest
/// fills at the order's own limit, just where the market crosses it and its place in the queue has come
/// up and wins.
pub proof fn law_a_placement_says_how_the_order_stands(
    p: Placement,
    m: CoreModel,
    q: OrderRequestModel,
    replies: Replies,
    maker_timeout_ms: i64,
    now_ms: i64,
)
    requires
        submission::is_placement(p, m, q, replies, maker_timeout_ms, now_ms),
    ensures
        m.config.mode == Mode::Live <==> p.outcome@.status == OrderStatus::Pending,
        p.outcome@.rejection is Some <==> p.outcome@.status == OrderStatus::Rejected,
        p.outcome@.rejection is Some <==> p.settled@ is Refused,
        p.outcome@.status == OrderStatus::Filled ==> p.settled@ is Fills || (p.fill matches Some(f)
            && f.size@ >= q.size@),
        p.outcome@.status == OrderStatus::PartiallyFilled ==> (p.fill matches Some(f) && f.size@
            < q.size@),
        p.outcome@.status == OrderStatus::Live ==> p.fill is None && p.settled@ is Rests,
        p.settled@ is Fills ==> p.outcome@.status == OrderStatus::Filled,
        p.fill matches Some(f) ==> f.price == q.price && f.size == replies.maker.chunk && f.size@ > 0
            && p.settled@ is Rests,
        p.settled@ is Rests ==> (p.fill is Some <==> q.size@ > 0 && replies.maker.crosses
            && replies.maker.eligible_at_ms <= now_ms && replies.maker.wins
            && replies.maker.chunk@ > 0),
{
    decimal::lemma_zero();
}

/// An order that a gate refuses takes no id; one that gets past them takes one, whatever comes after.
pub proof fn law_an_id_is_taken_behind_the_gates(
    m: CoreModel,
    q: OrderRequestModel,
    replies: Replies,
    positions: Seq<OpenPosition>,
    maker_timeout_ms: i64,
    entry_gates: bool,
    now_ms: i64,
)
    requires
        m.next_id < u64::MAX,
    ensures
        submission::after_placement(
            m,
            q,
            replies,
            positions,
            maker_timeout_ms,
            entry_gates,
            now_ms,
        ).next_id == m.next_id + if placing::gate_refusal(
            m,
            q,
            replies.gates,
            positions,
            entry_gates,
            now_ms,
        ) is None {
            1int
        } else {
            0
        },
        submission::placement_refusal(m, q, replies, positions, entry_gates, now_ms) is None <==> {
            &&& placing::gate_refusal(m, q, replies.gates, positions, entry_gates, now_ms) is None
            &&& q.side == Side::Buy ==> replies.unfunded is None
        },
{
}

// ---------------------------------------------------------------------------------------------
// Refusals

/// A refusal of the venue counts once everywhere: for the kernel, in the row of refusals, for its
/// strategy and its cause there, and for its intent; it is the last error, and changes nothing else but
/// what a freeze or an alarm asks for.
pub proof fn law_a_refusal_counts_once(
    m: CoreModel,
    key: Seq<char>,
    strategy: Seq<char>,
    code: CoreErrorCode,
    message: Seq<char>,
    now_ms: i64,
)
    requires
        service::refusal_ok(m, key, strategy, code, now_ms),
        m.consecutive_venue_rejects < u32::MAX,
        service::cooldown_of(m, key).attempts < u32::MAX,
        now_ms >= 0,
    ensures
        ({
            let after = service::refusal_booked(m, key, strategy, code, message, now_ms);
            let cause = "venue."@ + code.spec_name();
            let was = service::accounting_of(m, strategy);
            let is = service::accounting_of(after, strategy);
            let attempts = service::cooldown_of(m, key).attempts;
            &&& after.stats.venue_rejected == m.stats.venue_rejected + 1
            &&& after.consecutive_venue_rejects == m.consecutive_venue_rejects + 1
            &&& is.rejected == was.rejected + 1
            &&& is.rejection_causes.dom().contains(cause)
            &&& is.rejection_causes[cause] == 1 + if was.rejection_causes.dom().contains(cause) {
                was.rejection_causes[cause] as int
            } else {
                0
            }
            &&& forall|other: Seq<char>| #[trigger]
                was.rejection_causes.dom().contains(other) && other != cause
                    ==> is.rejection_causes.dom().contains(other) && is.rejection_causes[other]
                    == was.rejection_causes[other]
            &&& is.placed == was.placed
            &&& is.closed_trades == was.closed_trades
            &&& is.net_pnl_usd == was.net_pnl_usd
            &&& after.place_cooldowns.dom().contains(key)
            &&& after.place_cooldowns[key].attempts == attempts + 1
            &&& after.place_cooldowns[key].next_ok_ms == now_ms + rejections::reject_backoff(
                (attempts + 1) as u32,
            )
            &&& after.place_cooldowns[key].last_error == message
            &&& after.last_error matches Some(e)
            &&& e.ts_ms == now_ms
            &&& e.code == code
            &&& e.message == message
            &&& after.config == m.config
            &&& after.settlement == m.settlement
            &&& after.next_id == m.next_id
        }),
{
    rejections::law_the_spacing_grows_to_its_ceiling(
        (service::cooldown_of(m, key).attempts + 1) as u32,
        (service::cooldown_of(m, key).attempts + 1) as u32,
    );
}

/// An intent that keeps bouncing is told once: at the attempt that is its last one, or a close's last
/// one before it is only spaced out, and never again.
pub proof fn law_a_bouncing_intent_is_told_once(
    m: CoreModel,
    key: Seq<char>,
    strategy: Seq<char>,
    code: CoreErrorCode,
    message: Seq<char>,
    now_ms: i64,
)
    requires
        m.consecutive_venue_rejects + 1 < rejections::FREEZE_ON_REJECTS,
        service::cooldown_of(m, key).attempts < u32::MAX,
    ensures
        ({
            let c = service::cooldown_of(m, key);
            let told = service::refusal_events(m, key, strategy, code, message, now_ms);
            let after = service::refusal_booked(m, key, strategy, code, message, now_ms);
            &&& told.len() == if c.attempts + 1 >= rejections::MAX_PLACE_ATTEMPTS && !c.alerted {
                1int
            } else {
                0
            }
            &&& c.attempts + 1 >= rejections::MAX_PLACE_ATTEMPTS
                ==> after.place_cooldowns[key].alerted
            &&& c.attempts + 1 < rejections::MAX_PLACE_ATTEMPTS
                ==> after.place_cooldowns[key].alerted == c.alerted
        }),
{
}

proof fn lemma_failed_probes(items: Seq<SelfCheckItemModel>)
    ensures
        service::failed_probes(items).len() == 0 <==> forall|i: int|
            0 <= i < items.len() ==> (#[trigger] items[i]).ok,
        forall|i: int|
            0 <= i < items.len() && !(#[trigger] items[i]).ok ==> service::failed_probes(
                items,
            ).contains(items[i].name + ": "@ + items[i].detail),
    decreases items.len(),
{
    if items.len() > 0 {
        let front = items.drop_last();
        lemma_failed_probes(front);
        let rest = service::failed_probes(front);
        let all = service::failed_probes(items);
        assert(items[items.len() - 1] == items.last());
        if rest.len() == 0 {
            assert forall|i: int| 0 <= i < front.len() implies (#[trigger] items[i]).ok by {
                assert(front[i] == items[i]);
            }
        } else {
            let i = choose|i: int| 0 <= i < front.len() && !(#[trigger] front[i]).ok;
            assert(items[i] == front[i]);
        }
        assert forall|i: int| 0 <= i < items.len() && !(#[trigger] items[i]).ok implies all.contains(
            items[i].name + ": "@ + items[i].detail,
        ) by {
            if i < front.len() {
                assert(front[i] == items[i]);
                let t = front[i].name + ": "@ + front[i].detail;
                assert(rest.contains(t));
                let j = choose|j: int| 0 <= j < rest.len() && rest[j] == t;
                assert(all[j] == rest[j]);
            } else {
                assert(all[all.len() - 1] == items[i].name + ": "@ + items[i].detail);
            }
        }
    }
}

/// A self-check that fails freezes trading and is the last error; one that passes neither freezes it
/// nor lifts a freeze. Either way it is kept. What a failure is told as names every probe that failed.
pub proof fn law_a_failed_self_check_freezes_trading(m: CoreModel, report: SelfCheckReportModel)
    ensures
        ({
            let after = service::self_checked(m, report);
            &&& after.last_self_check == Some(report)
            &&& report.ok ==> after.kill_reason == m.kill_reason && after.last_error == m.last_error
            &&& !report.ok ==> after.kill_reason is Some && (after.last_error matches Some(e)
                && e.ts_ms == report.ts_ms && e.code == CoreErrorCode::VenueError)
            &&& !report.ok && m.kill_reason is Some ==> after.kill_reason == m.kill_reason
        }),
        service::failed_probes(report.items).len() == 0 <==> forall|i: int|
            0 <= i < report.items.len() ==> (#[trigger] report.items[i]).ok,
        forall|i: int|
            0 <= i < report.items.len() && !(#[trigger] report.items[i]).ok
                ==> service::failed_probes(report.items).contains(
                report.items[i].name + ": "@ + report.items[i].detail,
            ),
{
    lemma_failed_probes(report.items);
}

// ---------------------------------------------------------------------------------------------
// Which orders

proof fn lemma_picked(
    orders: Seq<TrackedOrderModel>,
    pick: spec_fn(TrackedOrderModel) -> bool,
    id: Seq<char>,
)
    ensures
        orders::picked_ids(orders, pick).contains(id) <==> exists|i: int|
            0 <= i < orders.len() && (#[trigger] orders[i]).order_id == id && orders[i].live && pick(
                orders[i],
            ),
    decreases orders.len(),
{
    if orders.len() > 0 {
        let front = orders.drop_last();
        lemma_picked(front, pick, id);
        let rest = orders::picked_ids(front, pick);
        let all = orders::picked_ids(orders, pick);
        assert(orders[orders.len() - 1] == orders.last());
        if rest.contains(id) {
            let j = choose|j: int| 0 <= j < rest.len() && rest[j] == id;
            assert(all[j] == id);
            let i = choose|i: int|
                0 <= i < front.len() && (#[trigger] front[i]).order_id == id && front[i].live
                    && pick(front[i]);
            assert(orders[i] == front[i]);
        }
        if orders.last().live && pick(orders.last()) && orders.last().order_id == id {
            assert(all[all.len() - 1] == id);
        }
        if all.contains(id) && !rest.contains(id) {
            let j = choose|j: int| 0 <= j < all.len() && all[j] == id;
            if j < rest.len() {
                assert(rest[j] == id);
            }
        }
        if exists|i: int|
            0 <= i < orders.len() && (#[trigger] orders[i]).order_id == id && orders[i].live && pick(
                orders[i],
            ) {
            let i = choose|i: int|
                0 <= i < orders.len() && (#[trigger] orders[i]).order_id == id && orders[i].live
                    && pick(orders[i]);
            if i < front.len() {
                assert(front[i] == orders[i]);
            }
        }
    }
}

/// The orders that a list names are those that work and are on the token: all of them, the ones that
/// rest on its book, or its buys. No order that has ended is among them.
pub proof fn law_a_list_names_the_working_orders(
    orders: Seq<TrackedOrderModel>,
    token: Seq<char>,
    id: Seq<char>,
)
    ensures
        orders::live_on(orders, None).contains(id) <==> exists|i: int|
            0 <= i < orders.len() && (#[trigger] orders[i]).order_id == id && orders[i].live,
        orders::live_on(orders, Some(token)).contains(id) <==> exists|i: int|
            0 <= i < orders.len() && (#[trigger] orders[i]).order_id == id && orders[i].live
                && orders[i].token_id == token,
        orders::resting_on(orders, token).contains(id) <==> exists|i: int|
            0 <= i < orders.len() && (#[trigger] orders[i]).order_id == id && orders[i].live
                && orders[i].token_id == token && orders[i].mode != FillPolicy::Taker,
        orders::bids_on(orders, token).contains(id) <==> exists|i: int|
            0 <= i < orders.len() && (#[trigger] orders[i]).order_id == id && orders[i].live
                && orders[i].token_id == token && orders[i].side == Side::Buy,
{
    lemma_picked(orders, |o: TrackedOrderModel| orders::is_on(o, None), id);
    lemma_picked(orders, |o: TrackedOrderModel| orders::is_on(o, Some(token)), id);
    lemma_picked(
        orders,
        |o: TrackedOrderModel| o.token_id == token && orders::rests(o.mode),
        id,
    );
    lemma_picked(orders, |o: TrackedOrderModel| o.side == Side::Buy && o.token_id == token, id);
}

/// The orders that the venue has not been sent are the working ones without an id of the venue's.
pub proof fn law_an_unbound_order_has_no_venue_id(orders: Seq<TrackedOrderModel>)
    ensures
        forall|i: int|
            0 <= i < orders.len() && (#[trigger] orders[i]).live && orders[i].venue_order_id is None
                ==> orders::unbound(orders).contains(orders[i]),
        forall|i: int|
            0 <= i < orders::unbound(orders).len() ==> (#[trigger] orders::unbound(orders)[i]).live
                && orders::unbound(orders)[i].venue_order_id is None && orders.contains(
                orders::unbound(orders)[i],
            ),
    decreases orders.len(),
{
    if orders.len() > 0 {
        let front = orders.drop_last();
        law_an_unbound_order_has_no_venue_id(front);
        let rest = orders::unbound(front);
        let all = orders::unbound(orders);
        assert forall|i: int|
            0 <= i < orders.len() && (#[trigger] orders[i]).live
                && orders[i].venue_order_id is None implies all.contains(orders[i]) by {
            if i < front.len() {
                assert(front[i] == orders[i]);
                assert(rest.contains(front[i]));
                let j = choose|j: int| 0 <= j < rest.len() && rest[j] == front[i];
                assert(all[j] == rest[j]);
            } else {
                assert(all[all.len() - 1] == orders[i]);
            }
        }
        assert forall|i: int| 0 <= i < all.len() implies (#[trigger] all[i]).live
            && all[i].venue_order_id is None && orders.contains(all[i]) by {
            if i < rest.len() {
                assert(all[i] == rest[i]);
                assert(front.contains(rest[i]));
                let j = choose|j: int| 0 <= j < front.len() && front[j] == rest[i];
                assert(orders[j] == front[j]);
            } else {
                assert(orders[orders.len() - 1] == all[i]);
            }
        }
    }
}

// ---------------------------------------------------------------------------------------------
// Cancelling

/// A cancel that waits for the venue is not lost to another one while there is room, and no cancel is
/// made up: what waits was waiting or is the new one.
pub proof fn law_a_queued_cancel_stays_queued(
    queue: Seq<Seq<char>>,
    id: Seq<char>,
    other: Seq<char>,
)
    ensures
        orders::queued(queue, id).contains(id),
        queue.contains(other) && queue.len() < service::PENDING_CANCELS_MAX ==> orders::queued(
            queue,
            id,
        ).contains(other),
        orders::queued(queue, id).contains(other) ==> other == id || queue.contains(other),
        queue.contains(id) ==> orders::queued(queue, id) == queue,
{
    let after = orders::queued(queue, id);
    if !queue.contains(id) {
        assert(queue.push(id)[queue.len() as int] == id);
        if queue.len() >= service::PENDING_CANCELS_MAX {
            assert(queue.push(id).skip(1)[queue.len() - 1] == id);
        }
    }
    if queue.contains(other) && queue.len() < service::PENDING_CANCELS_MAX {
        let i = choose|i: int| 0 <= i < queue.len() && queue[i] == other;
        assert(after[i] == other);
    }
    if after.contains(other) && other != id {
        let i = choose|i: int| 0 <= i < after.len() && after[i] == other;
        if queue.contains(id) {
        } else if queue.len() < service::PENDING_CANCELS_MAX {
            assert(queue[i] == other);
        } else {
            assert(queue.push(id).skip(1)[i] == queue.push(id)[i + 1]);
            assert(queue[i + 1] == other);
        }
    }
}

/// Cancelling an order cancels it at the venue just where it works there; an order that has ended, or
/// that the venue was never sent, cancels nothing there, and nothing else changes.
pub proof fn law_a_cancel_reaches_the_venue_where_the_order_works(
    m: CoreModel,
    o: TrackedOrderModel,
)
    ensures
        !o.live || o.venue_order_id is None ==> orders::cancelled(m, o) == m,
        o.live && o.venue_order_id is Some ==> orders::cancelled(m, o).pending_venue_cancels.contains(
            o.venue_order_id->0,
        ),
        orders::cancelled(m, o) == (CoreModel {
            pending_venue_cancels: orders::cancelled(m, o).pending_venue_cancels,
            ..m
        }),
{
    if o.live && o.venue_order_id is Some {
        law_a_queued_cancel_stays_queued(
            m.pending_venue_cancels,
            o.venue_order_id->0,
            o.venue_order_id->0,
        );
    }
}

/// Cancelling all orders on a token, or on all, cancels each of them at the venue, as long as there is
/// room for them, and no order on another token.
pub proof fn law_cancelling_all_cancels_each(
    m: CoreModel,
    orders: Seq<TrackedOrderModel>,
    token: Option<Seq<char>>,
    id: Seq<char>,
)
    requires
        m.pending_venue_cancels.len() + orders.len() <= service::PENDING_CANCELS_MAX,
    ensures
        ({
            let after = orders::all_cancelled(m, orders, token).pending_venue_cancels;
            &&& after.len() <= m.pending_venue_cancels.len() + orders.len()
            &&& after.contains(id) <==> m.pending_venue_cancels.contains(id) || exists|i: int|
                0 <= i < orders.len() && (#[trigger] orders[i]).live && orders[i].venue_order_id
                    == Some(id) && (token is None || Some(orders[i].token_id) == token)
        }),
    decreases orders.len(),
{
    if orders.len() > 0 {
        let front = orders.drop_last();
        law_cancelling_all_cancels_each(m, front, token, id);
        let before = orders::all_cancelled(m, front, token);
        let o = orders.last();
        assert(orders[orders.len() - 1] == o);
        if o.live && orders::is_on(o, token) && o.venue_order_id is Some {
            law_a_queued_cancel_stays_queued(before.pending_venue_cancels, o.venue_order_id->0, id);
        }
        if exists|i: int|
            0 <= i < front.len() && (#[trigger] front[i]).live && front[i].venue_order_id == Some(id)
                && (token is None || Some(front[i].token_id) == token) {
            let i = choose|i: int|
                0 <= i < front.len() && (#[trigger] front[i]).live && front[i].venue_order_id
                    == Some(id) && (token is None || Some(front[i].token_id) == token);
            assert(orders[i] == front[i]);
        }
        if exists|i: int|
            0 <= i < orders.len() && (#[trigger] orders[i]).live && orders[i].venue_order_id == Some(
                id,
            ) && (token is None || Some(orders[i].token_id) == token) {
            let i = choose|i: int|
                0 <= i < orders.len() && (#[trigger] orders[i]).live && orders[i].venue_order_id
                    == Some(id) && (token is None || Some(orders[i].token_id) == token);
            if i < front.len() {
                assert(front[i] == orders[i]);
            }
        }
    }
}

// ---------------------------------------------------------------------------------------------
// Closing by hand

/// The positions to flatten are the one that was named, or all of them, and no others.
pub proof fn law_a_flatten_reaches_what_was_named(
    positions: Seq<OpenPosition>,
    id: Option<Seq<char>>,
)
    ensures
        forall|i: int|
            0 <= i < positions.len() && (id is None || Some((#[trigger] positions[i]).id@) == id)
                ==> orders::targets(positions, id).contains(positions[i]),
        forall|i: int|
            0 <= i < orders::targets(positions, id).len() ==> (id is None || Some(
                (#[trigger] orders::targets(positions, id)[i]).id@,
            ) == id) && positions.contains(orders::targets(positions, id)[i]),
        id is None ==> orders::targets(positions, id) == positions,
    decreases positions.len(),
{
    if positions.len() > 0 {
        let front = positions.drop_last();
        law_a_flatten_reaches_what_was_named(front, id);
        let rest = orders::targets(front, id);
        let all = orders::targets(positions, id);
        assert forall|i: int|
            0 <= i < positions.len() && (id is None || Some((#[trigger] positions[i]).id@)
                == id) implies all.contains(positions[i]) by {
            if i < front.len() {
                assert(front[i] == positions[i]);
                assert(rest.contains(front[i]));
                let j = choose|j: int| 0 <= j < rest.len() && rest[j] == front[i];
                assert(all[j] == rest[j]);
            } else {
                assert(all[all.len() - 1] == positions[i]);
            }
        }
        assert forall|i: int| 0 <= i < all.len() implies (id is None || Some(
            (#[trigger] all[i]).id@,
        ) == id) && positions.contains(all[i]) by {
            if i < rest.len() {
                assert(all[i] == rest[i]);
                assert(front.contains(rest[i]));
                let j = choose|j: int| 0 <= j < front.len() && front[j] == rest[i];
                assert(positions[j] == front[j]);
            } else {
                assert(positions[positions.len() - 1] == all[i]);
            }
        }
        if id is None {
            assert(all =~= positions);
        }
    } else {
        assert(orders::targets(positions, id) =~= positions);
    }
}

/// A flatten sells all that a position holds, at the worst bid that this reaches, whatever the position
/// was last worth; one cent where no bid is known.
pub proof fn law_a_flatten_sells_all_at_the_worst_bid(
    p: OpenPosition,
    q: OpenPosition,
    worst_bid: Option<Decimal>,
)
    ensures
        ({
            let o = orders::flatten_request(p, worst_bid);
            &&& o.side == Side::Sell
            &&& o.mode == FillPolicy::Taker
            &&& o.size == p.shares
            &&& o.token_id == p.token_id@
            &&& o.condition_id == p.condition_id@
            &&& o.strategy == p.strategy@
            &&& o.asset == p.asset@
            &&& exits::direction_named(o.direction) == p.direction
            &&& worst_bid is Some && worst_bid->0@ > 0 ==> o.price == worst_bid->0
            &&& !(worst_bid is Some && worst_bid->0@ > 0) ==> 100 * o.price@ == decimal::one_unit()
            &&& o.price == orders::flatten_request(q, worst_bid).price
        }),
{
    exits::law_directions_are_read_back(p.direction);
    decimal::lemma_parts_of((1, 2));
    reveal_with_fuel(decimal::pow10, 29);
}

// ---------------------------------------------------------------------------------------------
// Crossing the book after resting

/// The worst price that an escalation may state is one cent inside the range: up to ninety-nine cents
/// for a buy, and down to one for a sell.
pub proof fn law_the_worst_price_is_the_end_of_the_range()
    ensures
        100 * orders::extreme(Side::Buy)@ == 99 * decimal::one_unit(),
        100 * orders::extreme(Side::Sell)@ == decimal::one_unit(),
{
    decimal::lemma_parts_of((99, 2));
    decimal::lemma_parts_of((1, 2));
    reveal_with_fuel(decimal::pow10, 29);
}

/// An escalation is of an order: what is left of it, and everything else as the order has it.
pub open spec fn escalates(e: EscalationModel, o: TrackedOrderModel, default_ms: i64) -> bool {
    &&& e.order_id == o.order_id
    &&& e.side == o.side
    &&& e.remaining == o.size.spec_minus(o.filled_size)
    &&& e.token_id == o.token_id
    &&& e.condition_id == o.condition_id
    &&& e.strategy == o.strategy
    &&& e.asset == o.asset
    &&& e.direction == o.direction
    &&& e.round_slot == o.round_slot
    &&& e.timeout_ms == if o.maker_timeout_ms > 0 {
        o.maker_timeout_ms
    } else {
        default_ms
    }
}

/// The orders that give up resting are the working ones whose time has come, and each does so with what
/// is left of it.
pub proof fn law_an_order_gives_up_when_its_time_has_come(
    orders: Seq<TrackedOrderModel>,
    default_ms: i64,
    now_ms: i64,
)
    ensures
        forall|i: int|
            0 <= i < orders.len() && (#[trigger] orders[i]).live && orders[i].escalate_at_ms is Some
                && orders[i].escalate_at_ms->0 <= now_ms ==> exists|k: int|
                0 <= k < orders::due(orders, default_ms, now_ms).len() && escalates(
                    #[trigger] orders::due(orders, default_ms, now_ms)[k],
                    orders[i],
                    default_ms,
                ),
        forall|k: int|
            0 <= k < orders::due(orders, default_ms, now_ms).len() ==> given_up(
                #[trigger] orders::due(orders, default_ms, now_ms)[k],
                orders,
                default_ms,
                now_ms,
            ),
    decreases orders.len(),
{
    if orders.len() > 0 {
        let front = orders.drop_last();
        law_an_order_gives_up_when_its_time_has_come(front, default_ms, now_ms);
        let rest = orders::due(front, default_ms, now_ms);
        let all = orders::due(orders, default_ms, now_ms);
        assert(orders[orders.len() - 1] == orders.last());
        assert forall|i: int|
            0 <= i < orders.len() && (#[trigger] orders[i]).live && orders[i].escalate_at_ms is Some
                && orders[i].escalate_at_ms->0 <= now_ms implies exists|k: int|
            0 <= k < all.len() && escalates(#[trigger] all[k], orders[i], default_ms) by {
            if i < front.len() {
                assert(front[i] == orders[i]);
                let k = choose|k: int|
                    0 <= k < rest.len() && escalates(#[trigger] rest[k], front[i], default_ms);
                assert(all[k] == rest[k]);
            } else {
                assert(escalates(all[all.len() - 1], orders[i], default_ms));
            }
        }
        assert forall|k: int| 0 <= k < all.len() implies given_up(
            #[trigger] all[k],
            orders,
            default_ms,
            now_ms,
        ) by {
            if k < rest.len() {
                assert(all[k] == rest[k]);
                assert(given_up(rest[k], front, default_ms, now_ms));
                let i = choose|i: int|
                    0 <= i < front.len() && escalates(rest[k], #[trigger] front[i], default_ms)
                        && front[i].live && front[i].escalate_at_ms is Some
                        && front[i].escalate_at_ms->0 <= now_ms;
                assert(orders[i] == front[i]);
            }
        }
    }
}

/// Some working order's time has come, and an escalation is of it.
pub open spec fn given_up(
    e: EscalationModel,
    orders: Seq<TrackedOrderModel>,
    default_ms: i64,
    now_ms: i64,
) -> bool {
    exists|i: int|
        0 <= i < orders.len() && escalates(e, #[trigger] orders[i], default_ms) && orders[i].live
            && orders[i].escalate_at_ms is Some && orders[i].escalate_at_ms->0 <= now_ms
}

/// An order that gives up resting crosses the book just where something is left of it, the book has the
/// depth for it and the risk gate allows it: what is left, on its side, at the worst price that the book
/// asks. It is done where nothing is left, and else rests on.
pub proof fn law_an_order_crosses_with_what_is_left(
    m: CoreModel,
    e: EscalationModel,
    worst: Option<Decimal>,
    refused: bool,
    now_ms: i64,
)
    ensures
        ({
            let r = orders::escalation_step(m, e, worst, refused, now_ms);
            &&& r is Done <==> e.remaining@ <= 0
            &&& r is Crosses <==> e.remaining@ > 0 && worst is Some && !refused
            &&& r matches EscalationStepModel::Crosses { order } ==> {
                &&& order.side == e.side
                &&& order.mode == FillPolicy::Taker
                &&& order.price == worst->0
                &&& order.size == e.remaining
                &&& order.token_id == e.token_id
                &&& order.condition_id == e.condition_id
                &&& order.strategy == e.strategy
                &&& order.asset == e.asset
                &&& order.direction == e.direction
                &&& order.round_slot == e.round_slot
                &&& order.internal_key == e.order_id + ":escalated"@
            }
        }),
        orders::escalated(m, e, worst, refused).escalation_skips.contains(e.order_id) == (
        if e.remaining@ <= 0 || worst is None {
            m.escalation_skips.contains(e.order_id)
        } else {
            refused
        }),
{
}

/// An order that the venue would not let rest crosses at once just where it is meant to cross after a
/// while, the venue refused it for crossing, and the book has the depth: whole, at the worst price that
/// the book asks.
pub proof fn law_only_a_refusal_for_crossing_crosses_at_once(
    o: TrackedOrderModel,
    code: CoreErrorCode,
    worst: Option<Decimal>,
)
    ensures
        orders::crosses_at_once(o, code, worst) is Some <==> o.mode == FillPolicy::MakerThenTaker
            && code == CoreErrorCode::WouldCross && worst is Some,
        orders::crosses_at_once(o, code, worst) matches Some(q) ==> {
            &&& q.side == o.side
            &&& q.mode == FillPolicy::Taker
            &&& q.price == worst->0
            &&& q.size == o.size
            &&& q.token_id == o.token_id
            &&& q.condition_id == o.condition_id
            &&& q.strategy == o.strategy
            &&& q.asset == o.asset
            &&& q.direction == o.direction
            &&& q.round_slot == o.round_slot
            &&& q.internal_key == o.order_id + ":escalated"@
        },
{
}

} // verus!
