//! Orders in flight: cancelling them, closing what they bought, and crossing the book with those
//! that rested for too long.
use vstd::prelude::*;
use vstd::string::*;

use crate::decimal::Decimal;
use crate::exit_reasons;
use crate::exits;
use crate::model;
use crate::model::{
    CoreError, CoreErrorCode, CoreErrorModel, ExitReason, FillPolicy, OpenPosition, OrderRequest,
    OrderRequestModel, Side, TrackedOrder, TrackedOrderModel,
};
use crate::placing;
use crate::rejections;
use crate::service;
use crate::service::{Book, Core, CoreModel, OrderBookModel};
use crate::str_map::StrSet;
use crate::text;

verus! {

/// A resting order whose time to cross the book has come.
#[derive(Debug)]
pub struct Escalation {
    pub order_id: String,
    pub side: Side,
    /// What is left of it to fill.
    pub remaining: Decimal,
    pub token_id: String,
    pub condition_id: String,
    pub strategy: String,
    pub asset: String,
    pub direction: String,
    pub round_slot: i64,
    /// How long it rests each time.
    pub timeout_ms: i64,
}

/// What an escalation says.
pub struct EscalationModel {
    pub order_id: Seq<char>,
    pub side: Side,
    pub remaining: Decimal,
    pub token_id: Seq<char>,
    pub condition_id: Seq<char>,
    pub strategy: Seq<char>,
    pub asset: Seq<char>,
    pub direction: Seq<char>,
    pub round_slot: i64,
    pub timeout_ms: i64,
}

impl View for Escalation {
    type V = EscalationModel;

    open spec fn view(&self) -> EscalationModel {
        EscalationModel {
            order_id: self.order_id@,
            side: self.side,
            remaining: self.remaining,
            token_id: self.token_id@,
            condition_id: self.condition_id@,
            strategy: self.strategy@,
            asset: self.asset@,
            direction: self.direction@,
            round_slot: self.round_slot,
            timeout_ms: self.timeout_ms,
        }
    }
}

impl Clone for Escalation {
    fn clone(&self) -> (r: Self)
        ensures
            r@ == self@,
    {
        Escalation {
            order_id: self.order_id.clone(),
            side: self.side,
            remaining: self.remaining,
            token_id: self.token_id.clone(),
            condition_id: self.condition_id.clone(),
            strategy: self.strategy.clone(),
            asset: self.asset.clone(),
            direction: self.direction.clone(),
            round_slot: self.round_slot,
            timeout_ms: self.timeout_ms,
        }
    }
}

// ---------------------------------------------------------------------------------------------
// Which orders

/// The ids of the working orders that a test picks out, in order.
pub open spec fn picked_ids(
    orders: Seq<TrackedOrderModel>,
    pick: spec_fn(TrackedOrderModel) -> bool,
) -> Seq<Seq<char>>
    decreases orders.len(),
{
    if orders.len() == 0 {
        Seq::empty()
    } else {
        let rest = picked_ids(orders.drop_last(), pick);
        if orders.last().live && pick(orders.last()) {
            rest.push(orders.last().order_id)
        } else {
            rest
        }
    }
}

/// An order rests on the book until it is hit.
pub open spec fn rests(mode: FillPolicy) -> bool {
    mode != FillPolicy::Taker
}

/// The working orders on a token, or on all.
pub open spec fn live_on(orders: Seq<TrackedOrderModel>, token: Option<Seq<char>>) -> Seq<
    Seq<char>,
> {
    picked_ids(orders, |o: TrackedOrderModel| is_on(o, token))
}

/// The working orders that rest on a token's book.
pub open spec fn resting_on(orders: Seq<TrackedOrderModel>, token: Seq<char>) -> Seq<Seq<char>> {
    picked_ids(orders, |o: TrackedOrderModel| o.token_id == token && rests(o.mode))
}

/// The working buys of a token.
pub open spec fn bids_on(orders: Seq<TrackedOrderModel>, token: Seq<char>) -> Seq<Seq<char>> {
    picked_ids(orders, |o: TrackedOrderModel| o.side == Side::Buy && o.token_id == token)
}

/// Lists the working orders that rest on a token's book: those that a new book may fill.
pub fn resting_order_ids(orders: &Vec<TrackedOrder>, token: &str) -> (r: Vec<String>)
    ensures
        model::texts(r@) == resting_on(exits::orders_model(orders@), token@),
{
    let ghost all = exits::orders_model(orders@);
    let mut out: Vec<String> = Vec::new();
    let mut i: usize = 0;
    proof {
        assert(all.take(0) =~= Seq::empty());
        assert(model::texts(out@) =~= Seq::empty());
    }
    while i < orders.len()
        invariant
            i <= orders@.len(),
            all == exits::orders_model(orders@),
            model::texts(out@) == resting_on(all.take(i as int), token@),
        decreases orders@.len() - i,
    {
        let o = &orders[i];
        proof {
            assert(all.take(i + 1).drop_last() =~= all.take(i as int));
            assert(all.take(i + 1).last() == o@);
        }
        if o.live && o.mode != FillPolicy::Taker && text::same_text(o.token_id.as_str(), token) {
            let ghost before = model::texts(out@);
            out.push(o.order_id.clone());
            assert(model::texts(out@) =~= before.push(o@.order_id));
        }
        i = i + 1;
    }
    assert(all.take(i as int) =~= all);
    out
}

/// Lists the working buys of a token: those to pull when its trend breaks.
pub fn resting_bid_ids(orders: &Vec<TrackedOrder>, token: &str) -> (r: Vec<String>)
    ensures
        model::texts(r@) == bids_on(exits::orders_model(orders@), token@),
{
    let ghost all = exits::orders_model(orders@);
    let mut out: Vec<String> = Vec::new();
    let mut i: usize = 0;
    proof {
        assert(all.take(0) =~= Seq::empty());
        assert(model::texts(out@) =~= Seq::empty());
    }
    while i < orders.len()
        invariant
            i <= orders@.len(),
            all == exits::orders_model(orders@),
            model::texts(out@) == bids_on(all.take(i as int), token@),
        decreases orders@.len() - i,
    {
        let o = &orders[i];
        proof {
            assert(all.take(i + 1).drop_last() =~= all.take(i as int));
            assert(all.take(i + 1).last() == o@);
        }
        if o.live && o.side == Side::Buy && text::same_text(o.token_id.as_str(), token) {
            let ghost before = model::texts(out@);
            out.push(o.order_id.clone());
            assert(model::texts(out@) =~= before.push(o@.order_id));
        }
        i = i + 1;
    }
    assert(all.take(i as int) =~= all);
    out
}

/// The working orders that the venue has not been sent, in order.
pub open spec fn unbound(orders: Seq<TrackedOrderModel>) -> Seq<TrackedOrderModel>
    decreases orders.len(),
{
    if orders.len() == 0 {
        Seq::empty()
    } else {
        let rest = unbound(orders.drop_last());
        if orders.last().live && orders.last().venue_order_id is None {
            rest.push(orders.last())
        } else {
            rest
        }
    }
}

impl Core {
    /// Lists the working orders that the venue has not been sent: those without its id.
    pub fn pending_unbound(orders: &Vec<TrackedOrder>) -> (r: Vec<TrackedOrder>)
        ensures
            exits::orders_model(r@) == unbound(exits::orders_model(orders@)),
    {
        let ghost all = exits::orders_model(orders@);
        let mut out: Vec<TrackedOrder> = Vec::new();
        let mut i: usize = 0;
        proof {
            assert(all.take(0) =~= Seq::empty());
            assert(exits::orders_model(out@) =~= Seq::empty());
        }
        while i < orders.len()
            invariant
                i <= orders@.len(),
                all == exits::orders_model(orders@),
                exits::orders_model(out@) == unbound(all.take(i as int)),
            decreases orders@.len() - i,
        {
            let o = &orders[i];
            proof {
                assert(all.take(i + 1).drop_last() =~= all.take(i as int));
                assert(all.take(i + 1).last() == o@);
            }
            if o.live && o.venue_order_id.is_none() {
                let ghost before = exits::orders_model(out@);
                let copy = o.clone();
                out.push(copy);
                assert(exits::orders_model(out@) =~= before.push(o@));
            }
            i = i + 1;
        }
        assert(all.take(i as int) =~= all);
        out
    }
}

// ---------------------------------------------------------------------------------------------
// Cancelling

/// The queue of venue cancels with one more: each order is in it once, and the oldest gives way
/// where the queue is full.
pub open spec fn queued(queue: Seq<Seq<char>>, id: Seq<char>) -> Seq<Seq<char>> {
    if queue.contains(id) {
        queue
    } else if queue.len() < service::PENDING_CANCELS_MAX {
        queue.push(id)
    } else {
        queue.push(id).skip(1)
    }
}

/// The refusal to act on an order that is not known.
pub open spec fn unknown_order(id: Seq<char>) -> CoreErrorModel {
    model::spec_error(CoreErrorCode::UnknownOrder, id)
}

/// Looks an order up that is to be cancelled: whether its reservation is released, or that it is
/// not known.
pub fn cancel_release(id: &str, order: Option<&TrackedOrder>) -> (r: Result<bool, CoreError>)
    ensures
        match r {
            Ok(release) => order is Some && release == (order->0.side == Side::Buy),
            Err(e) => order is None && e@ == unknown_order(id@),
        },
{
    match order {
        Some(o) => Ok(o.side == Side::Buy),
        None => Err(CoreError::new(CoreErrorCode::UnknownOrder, id.to_owned())),
    }
}

/// A kernel that has cancelled an order: the venue is told where it may still hold the order.
pub open spec fn cancelled(m: CoreModel, o: TrackedOrderModel) -> CoreModel {
    if o.live && o.venue_order_id is Some {
        CoreModel {
            pending_venue_cancels: queued(m.pending_venue_cancels, o.venue_order_id->0),
            ..m
        }
    } else {
        m
    }
}

/// An order is on a token; every order is on any.
pub open spec fn is_on(o: TrackedOrderModel, token: Option<Seq<char>>) -> bool {
    match token {
        Some(t) => o.token_id == t,
        None => true,
    }
}

/// A kernel that has cancelled the working orders on a token, or all, one after the other.
pub open spec fn all_cancelled(
    m: CoreModel,
    orders: Seq<TrackedOrderModel>,
    token: Option<Seq<char>>,
) -> CoreModel
    decreases orders.len(),
{
    if orders.len() == 0 {
        m
    } else {
        let before = all_cancelled(m, orders.drop_last(), token);
        if orders.last().live && is_on(orders.last(), token) {
            cancelled(before, orders.last())
        } else {
            before
        }
    }
}

impl Core {
    /// Cancels the working orders on a token, or all of them, and lists them. Each one that the
    /// venue knows is cancelled there too.
    pub fn cancel_all(&mut self, orders: &Vec<TrackedOrder>, token: Option<&str>) -> (r: Vec<String>)
        requires
            old(self).wf(),
        ensures
            final(self).wf(),
            ({
                let wanted = match token {
                    Some(t) => Some(t@),
                    None => None,
                };
                &&& model::texts(r@) == live_on(exits::orders_model(orders@), wanted)
                &&& final(self)@ == all_cancelled(
                    old(self)@,
                    exits::orders_model(orders@),
                    wanted,
                )
            }),
    {
        let ghost all = exits::orders_model(orders@);
        let ghost m = self@;
        let ghost wanted = match token {
            Some(t) => Some(t@),
            None => None,
        };
        let mut out: Vec<String> = Vec::new();
        let mut i: usize = 0;
        proof {
            assert(all.take(0) =~= Seq::empty());
            assert(model::texts(out@) =~= Seq::empty());
        }
        while i < orders.len()
            invariant
                self.wf(),
                i <= orders@.len(),
                all == exits::orders_model(orders@),
                wanted == match token {
                    Some(t) => Some(t@),
                    None => None,
                },
                model::texts(out@) == live_on(all.take(i as int), wanted),
                self@ == all_cancelled(m, all.take(i as int), wanted),
            decreases orders@.len() - i,
        {
            let o = &orders[i];
            proof {
                assert(all.take(i + 1).drop_last() =~= all.take(i as int));
                assert(all.take(i + 1).last() == o@);
            }
            let on_token = match token {
                Some(t) => text::same_text(o.token_id.as_str(), t),
                None => true,
            };
            if o.live && on_token {
                let ghost before = model::texts(out@);
                out.push(o.order_id.clone());
                assert(model::texts(out@) =~= before.push(o@.order_id));
                self.cancel(o);
            }
            i = i + 1;
        }
        assert(all.take(i as int) =~= all);
        out
    }

    /// Retires what still rests of an order that is filled in part; what it filled stays.
    pub fn cancel_remaining(&mut self, order: &TrackedOrder)
        requires
            old(self).wf(),
        ensures
            final(self).wf(),
            final(self)@ == cancelled(old(self)@, order@),
    {
        self.cancel(order)
    }

    /// Queues a cancel for the venue.
    pub fn queue_venue_cancel(&mut self, venue_order_id: String)
        requires
            old(self).wf(),
        ensures
            final(self).wf(),
            final(self)@ == (CoreModel {
                pending_venue_cancels: queued(
                    old(self)@.pending_venue_cancels,
                    venue_order_id@,
                ),
                ..old(self)@
            }),
    {
        let ghost q = self@.pending_venue_cancels;
        if text::is_listed(&self.pending_venue_cancels, venue_order_id.as_str()) {
            return ;
        }
        self.pending_venue_cancels.push(venue_order_id);
        assert(model::texts(self.pending_venue_cancels@) =~= q.push(venue_order_id@));
        if self.pending_venue_cancels.len() > service::PENDING_CANCELS_MAX {
            let _ = self.pending_venue_cancels.remove(0);
            assert(model::texts(self.pending_venue_cancels@) =~= q.push(venue_order_id@).skip(1));
        }
    }

    /// Takes the cancel of an order in. The order was working when it was cancelled, or not; where
    /// it was and the venue knows it, the venue is to be told.
    pub fn cancel(&mut self, order: &TrackedOrder)
        requires
            old(self).wf(),
        ensures
            final(self).wf(),
            final(self)@ == cancelled(old(self)@, order@),
    {
        if order.live {
            if let Some(id) = &order.venue_order_id {
                self.queue_venue_cancel(id.clone());
            }
        }
    }

    /// Hands out the venue cancels that wait, each once.
    pub fn take_pending_venue_cancels(&mut self) -> (r: Vec<String>)
        requires
            old(self).wf(),
        ensures
            final(self).wf(),
            model::texts(r@) == old(self)@.pending_venue_cancels,
            final(self)@ == (CoreModel { pending_venue_cancels: Seq::empty(), ..old(self)@ }),
    {
        let mut out: Vec<String> = Vec::new();
        assert(model::texts(out@) =~= Seq::empty());
        std::mem::swap(&mut out, &mut self.pending_venue_cancels);
        out
    }
}

/// A working order that the venue knows, once cancelled, is among the cancels that the venue is
/// told next.
pub proof fn law_a_cancelled_order_is_cancelled_at_the_venue(m: CoreModel, o: TrackedOrderModel)
    requires
        o.live,
        o.venue_order_id is Some,
    ensures
        cancelled(m, o).pending_venue_cancels.contains(o.venue_order_id->0),
{
    let id = o.venue_order_id->0;
    let q = m.pending_venue_cancels;
    if !q.contains(id) {
        assert(q.push(id)[q.len() as int] == id);
        if q.len() >= service::PENDING_CANCELS_MAX {
            assert(q.push(id).skip(1)[q.len() - 1] == id);
        }
    }
}

// ---------------------------------------------------------------------------------------------
// Closing by hand

/// The positions to flatten: the one with an id, or all.
pub open spec fn targets(positions: Seq<OpenPosition>, id: Option<Seq<char>>) -> Seq<OpenPosition>
    decreases positions.len(),
{
    if positions.len() == 0 {
        Seq::empty()
    } else {
        let rest = targets(positions.drop_last(), id);
        if id is None || positions.last().id@ == id->0 {
            rest.push(positions.last())
        } else {
            rest
        }
    }
}

/// The limit of a flatten: the worst bid that its size reaches, or the venue's lowest price where
/// none does.
pub open spec fn flatten_limit(worst_bid: Option<Decimal>) -> Decimal {
    match worst_bid {
        Some(p) => if p@ > 0 {
            p
        } else {
            exits::one_tick()
        },
        None => exits::one_tick(),
    }
}

/// The order that flattens a position.
pub open spec fn flatten_request(p: OpenPosition, worst_bid: Option<Decimal>) -> OrderRequestModel {
    OrderRequestModel {
        token_id: p.token_id@,
        condition_id: p.condition_id@,
        side: Side::Sell,
        mode: FillPolicy::Taker,
        price: flatten_limit(worst_bid),
        size: p.shares,
        internal_key: "flatten:"@ + p.id@,
        strategy: p.strategy@,
        asset: p.asset@,
        direction: exits::direction_text(p.direction),
        round_slot: 0,
    }
}

impl Core {
    /// The positions that a flatten closes: the one with an id, or all.
    pub fn flatten(positions: &Vec<OpenPosition>, id: Option<&str>) -> (r: Vec<OpenPosition>)
        ensures
            r@ == targets(
                positions@,
                match id {
                    Some(t) => Some(t@),
                    None => None,
                },
            ),
    {
        let ghost wanted = match id {
            Some(t) => Some(t@),
            None => None,
        };
        let mut out: Vec<OpenPosition> = Vec::new();
        let mut i: usize = 0;
        assert(positions@.take(0) =~= Seq::empty());
        while i < positions.len()
            invariant
                i <= positions@.len(),
                wanted == match id {
                    Some(t) => Some(t@),
                    None => None,
                },
                out@ == targets(positions@.take(i as int), wanted),
            decreases positions@.len() - i,
        {
            let p = &positions[i];
            assert(positions@.take(i + 1).drop_last() =~= positions@.take(i as int));
            let picked = match id {
                Some(t) => text::same_text(p.id.as_str(), t),
                None => true,
            };
            if picked {
                out.push(p.clone());
            }
            i = i + 1;
        }
        assert(positions@.take(i as int) =~= positions@);
        out
    }

    /// Finds the position to flatten so that what an order bought is closed: the first one on its
    /// token.
    pub fn close_filled(
        order_id: &str,
        order: Option<&TrackedOrder>,
        positions: &Vec<OpenPosition>,
    ) -> (r: Result<String, CoreError>)
        ensures
            match r {
                Ok(id) => {
                    &&& order is Some
                    &&& exits::position_on(positions@, order->0@.token_id) matches Some(i)
                    &&& id@ == positions@[i].id@
                },
                Err(e) => match order {
                    None => e@ == unknown_order(order_id@),
                    Some(o) => exits::position_on(positions@, o@.token_id) is None && e@
                        == unknown_order("no open position behind order "@ + order_id@),
                },
            },
    {
        match order {
            None => Err(CoreError::new(CoreErrorCode::UnknownOrder, order_id.to_owned())),
            Some(o) => match exits::find_on(positions, o.token_id.as_str()) {
                Some(i) => Ok(positions[i].id.clone()),
                None => Err(
                    CoreError::new(
                        CoreErrorCode::UnknownOrder,
                        text::join("no open position behind order ", order_id),
                    ),
                ),
            },
        }
    }

    /// The order that flattens a position, unless its token is being sold already. The limit is
    /// the worst bid that the size reaches: a price off the latest valuation might never cross.
    pub fn flatten_order(
        &mut self,
        p: &OpenPosition,
        already_live: bool,
        worst_bid: Option<Decimal>,
        open_tokens: &Vec<String>,
    ) -> (r: Option<OrderRequest>)
        requires
            old(self).wf(),
            old(self)@.exit_reasons.evicted < u64::MAX,
        ensures
            final(self).wf(),
            match r {
                Some(order) => {
                    &&& !already_live
                    &&& order@ == flatten_request(*p, worst_bid)
                    &&& final(self)@ == (CoreModel {
                        exit_reasons: exit_reasons::note_step(
                            old(self)@.exit_reasons,
                            p.token_id@,
                            ExitReason::Manual,
                            model::texts(open_tokens@),
                        ),
                        ..old(self)@
                    })
                },
                None => already_live && final(self)@ == old(self)@,
            },
    {
        if already_live {
            return None;
        }
        let price = match worst_bid {
            Some(w) => if w.is_positive() {
                w
            } else {
                Decimal::new(1, 2)
            },
            None => Decimal::new(1, 2),
        };
        self.exit_reasons.note_exit_reason(p.token_id.as_str(), ExitReason::Manual, open_tokens);
        Some(
            OrderRequest {
                token_id: p.token_id.clone(),
                condition_id: p.condition_id.clone(),
                side: Side::Sell,
                mode: FillPolicy::Taker,
                price,
                size: p.shares,
                internal_key: text::join("flatten:", p.id.as_str()),
                strategy: p.strategy.clone(),
                asset: p.asset.clone(),
                direction: exits::write_direction(p.direction),
                round_slot: 0,
            },
        )
    }

    /// Takes a book in, and lists the resting orders that it may fill.
    pub fn book_snapshot(
        &mut self,
        token_id: &str,
        bids: Vec<(Decimal, Decimal)>,
        asks: Vec<(Decimal, Decimal)>,
        orders: &Vec<TrackedOrder>,
    ) -> (r: Vec<String>)
        requires
            old(self).wf(),
        ensures
            final(self).wf(),
            final(self)@ == (CoreModel {
                books: old(self)@.books.insert(
                    token_id@,
                    (OrderBookModel { bids: bids@, asks: asks@ }),
                ),
                ..old(self)@
            }),
            model::texts(r@) == resting_on(exits::orders_model(orders@), token_id@),
    {
        self.books.insert(token_id.to_owned(), Book { bids, asks });
        resting_order_ids(orders, token_id)
    }
}

/// A flatten closes: no cap on refusals ever gives it up.
pub proof fn law_a_flatten_is_a_close(p: OpenPosition, worst_bid: Option<Decimal>)
    ensures
        rejections::closes(flatten_request(p, worst_bid).internal_key),
        flatten_request(p, worst_bid).side == Side::Sell,
        flatten_request(p, worst_bid).size == p.shares,
{
    rejections::law_close_keys_close(p.id@);
}

// ---------------------------------------------------------------------------------------------
// Crossing the book after resting

/// The worst price that an escalation may state: the end of the price range on its side.
pub open spec fn extreme(side: Side) -> Decimal {
    match side {
        Side::Buy => Decimal::of((99, 2)),
        Side::Sell => Decimal::of((1, 2)),
    }
}

/// Writes the worst price that an escalation may state.
pub fn extreme_price(side: Side) -> (r: Decimal)
    ensures
        r == extreme(side),
{
    match side {
        Side::Buy => Decimal::new(99, 2),
        Side::Sell => Decimal::new(1, 2),
    }
}

/// An order gives up resting.
pub open spec fn is_due(o: TrackedOrderModel, now_ms: i64) -> bool {
    o.live && o.escalate_at_ms is Some && o.escalate_at_ms->0 <= now_ms
}

/// The escalation of an order. Its time is the one that it was given to rest, however often its
/// clock was set anew.
pub open spec fn escalation_of(o: TrackedOrderModel, default_ms: i64) -> EscalationModel {
    EscalationModel {
        order_id: o.order_id,
        side: o.side,
        remaining: o.size.spec_minus(o.filled_size),
        token_id: o.token_id,
        condition_id: o.condition_id,
        strategy: o.strategy,
        asset: o.asset,
        direction: o.direction,
        round_slot: o.round_slot,
        timeout_ms: placing::maker_timeout(o.maker_timeout_ms, default_ms),
    }
}

/// The orders that give up resting.
pub open spec fn due(orders: Seq<TrackedOrderModel>, default_ms: i64, now_ms: i64) -> Seq<
    EscalationModel,
>
    decreases orders.len(),
{
    if orders.len() == 0 {
        Seq::empty()
    } else {
        let rest = due(orders.drop_last(), default_ms, now_ms);
        if is_due(orders.last(), now_ms) {
            rest.push(escalation_of(orders.last(), default_ms))
        } else {
            rest
        }
    }
}

impl Core {
    /// Lists the orders that give up resting.
    pub fn due_escalations(&self, orders: &Vec<TrackedOrder>, now_ms: i64) -> (r: Vec<Escalation>)
        requires
            forall|i: int|
                0 <= i < orders@.len() && is_due(orders@[i]@, now_ms) ==> (
                #[trigger] orders@[i]).size.minus_ok(orders@[i].filled_size),
        ensures
            r@.map_values(|e: Escalation| e@) == due(
                exits::orders_model(orders@),
                self@.config.default_maker_timeout_ms,
                now_ms,
            ),
    {
        let ghost all = exits::orders_model(orders@);
        let default_ms: i64 = self.config.default_maker_timeout_ms;
        let mut out: Vec<Escalation> = Vec::new();
        let mut i: usize = 0;
        proof {
            assert(all.take(0) =~= Seq::empty());
            assert(out@.map_values(|e: Escalation| e@) =~= Seq::empty());
        }
        while i < orders.len()
            invariant
                i <= orders@.len(),
                all == exits::orders_model(orders@),
                forall|i: int|
                    0 <= i < orders@.len() && is_due(orders@[i]@, now_ms) ==> (
                    #[trigger] orders@[i]).size.minus_ok(orders@[i].filled_size),
                out@.map_values(|e: Escalation| e@) == due(
                    all.take(i as int),
                    default_ms,
                    now_ms,
                ),
            decreases orders@.len() - i,
        {
            let o = &orders[i];
            proof {
                assert(all.take(i + 1).drop_last() =~= all.take(i as int));
                assert(all.take(i + 1).last() == o@);
                assert(is_due(orders@[i as int]@, now_ms) ==> o.size.minus_ok(o.filled_size));
            }
            if o.live {
                if let Some(t) = o.escalate_at_ms {
                    if t <= now_ms {
                        let e = Escalation {
                            order_id: o.order_id.clone(),
                            side: o.side,
                            remaining: o.size.minus(o.filled_size),
                            token_id: o.token_id.clone(),
                            condition_id: o.condition_id.clone(),
                            strategy: o.strategy.clone(),
                            asset: o.asset.clone(),
                            direction: o.direction.clone(),
                            round_slot: o.round_slot,
                            timeout_ms: if o.maker_timeout_ms > 0 {
                                o.maker_timeout_ms
                            } else {
                                default_ms
                            },
                        };
                        let ghost before = out@.map_values(|e: Escalation| e@);
                        out.push(e);
                        assert(out@.map_values(|e: Escalation| e@) =~= before.push(e@));
                    }
                }
            }
            i = i + 1;
        }
        assert(all.take(i as int) =~= all);
        out
    }
}

/// The intent of an order that crosses the book after resting.
pub open spec fn escalated_key(order_id: Seq<char>) -> Seq<char> {
    order_id + ":escalated"@
}

/// The order that crosses the book after resting: what is left, at the worst price that the book
/// asks for it.
pub open spec fn crossing(e: EscalationModel, worst: Decimal) -> OrderRequestModel {
    OrderRequestModel {
        token_id: e.token_id,
        condition_id: e.condition_id,
        side: e.side,
        mode: FillPolicy::Taker,
        price: worst,
        size: e.remaining,
        internal_key: escalated_key(e.order_id),
        strategy: e.strategy,
        asset: e.asset,
        direction: e.direction,
        round_slot: e.round_slot,
    }
}

/// Writes the order that crosses the book after resting.
pub fn crossing_order(e: &Escalation, worst: Decimal) -> (r: OrderRequest)
    ensures
        r@ == crossing(e@, worst),
{
    OrderRequest {
        token_id: e.token_id.clone(),
        condition_id: e.condition_id.clone(),
        side: e.side,
        mode: FillPolicy::Taker,
        price: worst,
        size: e.remaining,
        internal_key: text::join(e.order_id.as_str(), ":escalated"),
        strategy: e.strategy.clone(),
        asset: e.asset.clone(),
        direction: e.direction.clone(),
        round_slot: e.round_slot,
    }
}

/// What is done with an order that gives up resting.
#[derive(Debug)]
pub enum EscalationStep {
    /// Nothing is left of it.
    Done,
    /// It goes on resting, and its time is counted anew. The first time that its cross is refused
    /// is worth a word.
    Rests { until_ms: i64, say_so: bool },
    /// It is cancelled, and this order takes its place.
    Crosses { order: OrderRequest },
}

/// What is done with an order that gives up resting.
pub enum EscalationStepModel {
    Done,
    Rests { until_ms: i64, say_so: bool },
    Crosses { order: OrderRequestModel },
}

impl View for EscalationStep {
    type V = EscalationStepModel;

    open spec fn view(&self) -> EscalationStepModel {
        match self {
            EscalationStep::Done => EscalationStepModel::Done,
            EscalationStep::Rests { until_ms, say_so } => EscalationStepModel::Rests {
                until_ms: *until_ms,
                say_so: *say_so,
            },
            EscalationStep::Crosses { order } => EscalationStepModel::Crosses { order: order@ },
        }
    }
}

/// What is done with an order that gives up resting: it crosses the book where the book has the
/// depth and the risk gate allows it, and else it goes on resting.
pub open spec fn escalation_step(
    m: CoreModel,
    e: EscalationModel,
    worst: Option<Decimal>,
    refused: bool,
    now_ms: i64,
) -> EscalationStepModel {
    let until_ms = (now_ms + e.timeout_ms) as i64;
    if e.remaining@ <= 0 {
        EscalationStepModel::Done
    } else if worst is None {
        EscalationStepModel::Rests { until_ms, say_so: false }
    } else if refused {
        EscalationStepModel::Rests {
            until_ms,
            say_so: !m.escalation_skips.contains(e.order_id),
        }
    } else {
        EscalationStepModel::Crosses { order: crossing(e, worst->0) }
    }
}

/// A kernel that has decided on an order that gives up resting: refused crosses are remembered
/// until one goes through.
pub open spec fn escalated(
    m: CoreModel,
    e: EscalationModel,
    worst: Option<Decimal>,
    refused: bool,
) -> CoreModel {
    if e.remaining@ <= 0 || worst is None {
        m
    } else if refused {
        CoreModel { escalation_skips: m.escalation_skips.insert(e.order_id), ..m }
    } else {
        CoreModel { escalation_skips: m.escalation_skips.remove(e.order_id), ..m }
    }
}

/// The ids of the working orders.
pub open spec fn working_ids(orders: Seq<TrackedOrderModel>) -> Set<Seq<char>> {
    Set::new(
        |id: Seq<char>|
            exists|i: int|
                0 <= i < orders.len() && (#[trigger] orders[i]).order_id == id && orders[i].live,
    )
}

impl Core {
    /// Decides on an order that gives up resting. The resting order is only cancelled once the
    /// risk gate has allowed the one that takes its place: else the entry would be lost, and not
    /// put off.
    pub fn escalate(
        &mut self,
        e: &Escalation,
        worst: Option<Decimal>,
        refused: bool,
        now_ms: i64,
    ) -> (r: EscalationStep)
        requires
            old(self).wf(),
            i64::MIN <= now_ms + e.timeout_ms <= i64::MAX,
        ensures
            final(self).wf(),
            r@ == escalation_step(old(self)@, e@, worst, refused, now_ms),
            final(self)@ == escalated(old(self)@, e@, worst, refused),
    {
        if !e.remaining.is_positive() {
            return EscalationStep::Done;
        }
        match worst {
            None => EscalationStep::Rests { until_ms: now_ms + e.timeout_ms, say_so: false },
            Some(w) => {
                if refused {
                    let first = self.escalation_skips.insert(e.order_id.clone());
                    EscalationStep::Rests { until_ms: now_ms + e.timeout_ms, say_so: first }
                } else {
                    self.escalation_skips.remove(e.order_id.as_str());
                    EscalationStep::Crosses { order: crossing_order(e, w) }
                }
            },
        }
    }

    /// Forgets the refused crosses of orders that work no longer.
    pub fn forget_escalation_skips(&mut self, orders: &Vec<TrackedOrder>)
        requires
            old(self).wf(),
        ensures
            final(self).wf(),
            final(self)@ == (CoreModel {
                escalation_skips: old(self)@.escalation_skips.intersect(
                    working_ids(exits::orders_model(orders@)),
                ),
                ..old(self)@
            }),
    {
        let ghost m = self@;
        let ghost all = exits::orders_model(orders@);
        let mut kept = StrSet::new();
        let mut i: usize = 0;
        assert(kept@ =~= m.escalation_skips.intersect(working_ids(all.take(0))));
        while i < orders.len()
            invariant
                i <= orders@.len(),
                self@ == m,
                self.wf(),
                all == exits::orders_model(orders@),
                kept@ == m.escalation_skips.intersect(working_ids(all.take(i as int))),
            decreases orders@.len() - i,
        {
            let o = &orders[i];
            let ghost before = kept@;
            assert(all[i as int] == o@);
            if o.live && self.escalation_skips.contains(o.order_id.as_str()) {
                let _ = kept.insert(o.order_id.clone());
            }
            proof {
                let now = working_ids(all.take(i + 1));
                let was = working_ids(all.take(i as int));
                assert forall|id: Seq<char>|
                    kept@.contains(id) == m.escalation_skips.intersect(now).contains(id) by {
                    if was.contains(id) {
                        let j = choose|j: int|
                            0 <= j < i && (#[trigger] all.take(i as int)[j]).order_id == id
                                && all.take(i as int)[j].live;
                        assert(all.take(i + 1)[j] == all.take(i as int)[j]);
                    }
                    if now.contains(id) && !was.contains(id) {
                        let j = choose|j: int|
                            0 <= j < i + 1 && (#[trigger] all.take(i + 1)[j]).order_id == id
                                && all.take(i + 1)[j].live;
                        if j < i {
                            assert(all.take(i as int)[j] == all.take(i + 1)[j]);
                        }
                    }
                    if o.live {
                        assert(all.take(i + 1)[i as int] == o@);
                        assert(now.contains(o@.order_id));
                    }
                }
                assert(kept@ =~= m.escalation_skips.intersect(now));
            }
            i = i + 1;
        }
        assert(all.take(i as int) =~= all);
        self.escalation_skips = kept;
    }
}

/// A cross that the book or the risk gate does not allow leaves the resting order where it is.
pub proof fn law_a_refused_cross_keeps_the_maker(
    m: CoreModel,
    e: EscalationModel,
    worst: Option<Decimal>,
    refused: bool,
    now_ms: i64,
)
    requires
        worst is None || refused,
    ensures
        !(escalation_step(m, e, worst, refused, now_ms) is Crosses),
{
}

/// An order that goes on resting waits the same time again, however often: its clock is set to what
/// it was given to rest from now on, and the next time it gives up it is given the same again.
pub proof fn law_a_clock_set_anew_waits_the_same_time(
    m: CoreModel,
    o: TrackedOrderModel,
    worst: Option<Decimal>,
    refused: bool,
    now_ms: i64,
    later: TrackedOrderModel,
)
    requires
        escalation_step(
            m,
            escalation_of(o, m.config.default_maker_timeout_ms),
            worst,
            refused,
            now_ms,
        ) is Rests,
        i64::MIN <= now_ms + placing::maker_timeout(
            o.maker_timeout_ms,
            m.config.default_maker_timeout_ms,
        ) <= i64::MAX,
        later == (TrackedOrderModel {
            escalate_at_ms: Some(
                escalation_step(
                    m,
                    escalation_of(o, m.config.default_maker_timeout_ms),
                    worst,
                    refused,
                    now_ms,
                )->until_ms,
            ),
            ..o
        }),
    ensures
        later.escalate_at_ms->0 == now_ms + placing::maker_timeout(
            o.maker_timeout_ms,
            m.config.default_maker_timeout_ms,
        ),
        escalation_of(later, m.config.default_maker_timeout_ms).timeout_ms == escalation_of(
            o,
            m.config.default_maker_timeout_ms,
        ).timeout_ms,
{
}

/// A refused cross is told once per order.
pub proof fn law_a_refused_cross_is_told_once(
    m: CoreModel,
    e: EscalationModel,
    worst: Decimal,
    later: Option<Decimal>,
    now_ms: i64,
    later_ms: i64,
)
    requires
        e.remaining@ > 0,
    ensures
        escalation_step(
            escalated(m, e, Some(worst), true),
            e,
            later,
            true,
            later_ms,
        ) matches EscalationStepModel::Rests { until_ms, say_so } ==> !say_so,
{
}

/// An order that crosses the book after resting opens exposure as the one before it did: it is no
/// close, whatever the kernel's mode, and so the freeze and the caps on refusals hold of it.
pub proof fn law_an_escalated_entry_is_no_close(m: CoreModel)
    ensures
        !rejections::closes(escalated_key(placing::next_order_id(m))),
{
    let id = placing::next_order_id(m);
    let key = escalated_key(id);
    reveal_strlit("live");
    reveal_strlit("readonly");
    reveal_strlit("dry");
    reveal_strlit("exit:");
    reveal_strlit("exit-strategy:");
    reveal_strlit("exit-residual:");
    reveal_strlit("flatten:");
    assert(key[0] == placing::id_prefix(m.config.mode)[0]);
    assert(key[0] == 'l' || key[0] == 'r' || key[0] == 'd');
    if text::starts(key, "exit:"@) {
        assert(key.subrange(0, "exit:"@.len() as int)[0] == "exit:"@[0]);
    }
    if text::starts(key, "exit-strategy:"@) {
        assert(key.subrange(0, "exit-strategy:"@.len() as int)[0] == "exit-strategy:"@[0]);
    }
    if text::starts(key, "exit-residual:"@) {
        assert(key.subrange(0, "exit-residual:"@.len() as int)[0] == "exit-residual:"@[0]);
    }
    if text::starts(key, "flatten:"@) {
        assert(key.subrange(0, "flatten:"@.len() as int)[0] == "flatten:"@[0]);
    }
}

// ---------------------------------------------------------------------------------------------
// An order that the venue refused

/// What the venue's refusal of an order is, where it gave no reason.
pub open spec fn plain_refusal() -> CoreErrorModel {
    model::spec_error(CoreErrorCode::VenueError, "venue rejected order"@)
}

/// The order that crosses the book in place of one that the venue would not let rest: an entry
/// that is meant to cross after a while never got to rest, so it crosses now. Other refusals would
/// meet a taker too.
pub open spec fn crosses_at_once(o: TrackedOrderModel, code: CoreErrorCode, worst: Option<Decimal>) -> Option<
    OrderRequestModel,
> {
    if o.mode == FillPolicy::MakerThenTaker && code == CoreErrorCode::WouldCross && worst is Some {
        Some(
            OrderRequestModel {
                token_id: o.token_id,
                condition_id: o.condition_id,
                side: o.side,
                mode: FillPolicy::Taker,
                price: worst->0,
                size: o.size,
                internal_key: escalated_key(o.order_id),
                strategy: o.strategy,
                asset: o.asset,
                direction: o.direction,
                round_slot: o.round_slot,
            },
        )
    } else {
        None
    }
}

impl Core {
    /// Hears that the venue refused an order and did not say why: nothing crosses in its place.
    pub fn reject_live(order: &TrackedOrder) -> (r: CoreError)
        ensures
            r@ == plain_refusal(),
            crosses_at_once(order@, r.code, None) is None,
    {
        Core::reject_live_result(order, None, None).0
    }

    /// Hears that the venue refused an order: the refusal to book, and the order that crosses the
    /// book in the refused one's place, where there is one. The worst price is the one that the book
    /// asks for the whole size, where it has the depth.
    pub fn reject_live_result(
        order: &TrackedOrder,
        err: Option<CoreError>,
        worst: Option<Decimal>,
    ) -> (r: (CoreError, Option<OrderRequest>))
        ensures
            r.0@ == match err {
                Some(e) => e@,
                None => plain_refusal(),
            },
            match r.1 {
                Some(q) => crosses_at_once(order@, r.0.code, worst) == Some(q@),
                None => crosses_at_once(order@, r.0.code, worst) is None,
            },
    {
        let refusal = match err {
            Some(e) => e,
            None => CoreError::new(CoreErrorCode::VenueError, "venue rejected order".to_owned()),
        };
        if order.mode == FillPolicy::MakerThenTaker && refusal.code == CoreErrorCode::WouldCross {
            if let Some(w) = worst {
                let req = OrderRequest {
                    token_id: order.token_id.clone(),
                    condition_id: order.condition_id.clone(),
                    side: order.side,
                    mode: FillPolicy::Taker,
                    price: w,
                    size: order.size,
                    internal_key: text::join(order.order_id.as_str(), ":escalated"),
                    strategy: order.strategy.clone(),
                    asset: order.asset.clone(),
                    direction: order.direction.clone(),
                    round_slot: order.round_slot,
                };
                return (refusal, Some(req));
            }
        }
        (refusal, None)
    }
}

} // verus!
