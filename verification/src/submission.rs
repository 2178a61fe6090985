//! Placing an order as a whole: through the gates, with its id and its reservation, to what becomes
//! of it at once.
use vstd::prelude::*;

use crate::decimal::Decimal;
use crate::model::{
    CoreError, CoreErrorModel, Event, EventModel, FillPolicy, OpenPosition, OrderRequest,
    OrderRequestModel, OrderStatus, Side, TrackedOrder, TrackedOrderModel,
};
use crate::placing;
use crate::placing::{GateAnswers, MakerFill, Submitted, SubmittedModel, TakerView};
use crate::service;
use crate::service::{Core, CoreModel, PlaceOutcome, PlaceOutcomeModel};

verus! {

/// What the book and the fill model say of an order that rests.
#[derive(Clone, Copy, Debug)]
pub struct MakerView {
    /// Whether the book crosses the order's limit.
    pub crosses: bool,
    /// From when on the order can be hit.
    pub eligible_at_ms: i64,
    /// Whether its turn in the queue has come.
    pub wins: bool,
    /// How much of it the book takes.
    pub chunk: Decimal,
}

/// What the parts of the kernel say of an order that is to be placed.
#[derive(Debug)]
pub struct Replies {
    pub gates: GateAnswers,
    /// Why the ledger does not reserve what a buy commits, where it does not.
    pub unfunded: Option<CoreError>,
    pub taker: TakerView,
    pub maker: MakerView,
}

/// An order that was placed.
#[derive(Debug)]
pub struct Placement {
    pub outcome: PlaceOutcome,
    /// The order as it is registered.
    pub order: TrackedOrder,
    /// What a buy reserves.
    pub reserve: Option<Decimal>,
    /// What becomes of the order at once.
    pub settled: Submitted,
    /// The part that fills as the order comes to rest, where one does.
    pub fill: Option<MakerFill>,
    pub events: Vec<Event>,
}

/// An order as it is registered: nothing of it has filled.
pub open spec fn registered(
    id: Seq<char>,
    q: OrderRequestModel,
    maker_timeout_ms: i64,
    now_ms: i64,
) -> TrackedOrderModel {
    TrackedOrderModel {
        order_id: id,
        token_id: q.token_id,
        condition_id: q.condition_id,
        side: q.side,
        mode: q.mode,
        price: q.price,
        size: q.size,
        filled_size: Decimal::spec_zero(),
        status: OrderStatus::Pending,
        live: true,
        internal_key: q.internal_key,
        strategy: q.strategy,
        asset: q.asset,
        direction: q.direction,
        round_slot: q.round_slot,
        submitted_at_ms: now_ms,
        updated_at_ms: now_ms,
        maker_timeout_ms,
        escalate_at_ms: None,
        venue_order_id: None,
    }
}

/// What a buy reserves: its whole size at its limit.
pub open spec fn reserved_for(q: OrderRequestModel) -> Option<Decimal> {
    if q.side == Side::Buy {
        Some(q.price.spec_times(q.size))
    } else {
        None
    }
}

/// A kernel that has given an id away.
pub open spec fn id_taken(m: CoreModel) -> CoreModel {
    CoreModel { next_id: (m.next_id + 1) as u64, ..m }
}

/// The refusal by the ledger, which only a buy meets.
pub open spec fn funding_refusal(q: OrderRequestModel, unfunded: Option<CoreError>) -> Option<
    CoreErrorModel,
> {
    if q.side == Side::Buy {
        placing::opt_error(unfunded)
    } else {
        None
    }
}

/// Why an order is refused before it is registered: by the gates, and then by the ledger.
pub open spec fn placement_refusal(
    m: CoreModel,
    q: OrderRequestModel,
    replies: Replies,
    positions: Seq<OpenPosition>,
    entry_gates: bool,
    now_ms: i64,
) -> Option<CoreErrorModel> {
    match placing::gate_refusal(m, q, replies.gates, positions, entry_gates, now_ms) {
        Some(e) => Some(e),
        None => funding_refusal(q, replies.unfunded),
    }
}

/// What becomes of an order that was registered.
pub open spec fn settled_as(
    m: CoreModel,
    q: OrderRequestModel,
    replies: Replies,
    maker_timeout_ms: i64,
    now_ms: i64,
) -> SubmittedModel {
    placing::submitted(
        m,
        registered(placing::next_order_id(m), q, maker_timeout_ms, now_ms),
        replies.taker,
        maker_timeout_ms,
        now_ms,
    )
}

/// A part of the order fills as it comes to rest.
pub open spec fn fills_at_once(
    m: CoreModel,
    q: OrderRequestModel,
    replies: Replies,
    maker_timeout_ms: i64,
    now_ms: i64,
) -> bool {
    settled_as(m, q, replies, maker_timeout_ms, now_ms) is Rests && placing::maker_fills(
        registered(placing::next_order_id(m), q, maker_timeout_ms, now_ms),
        replies.maker.crosses,
        replies.maker.eligible_at_ms,
        replies.maker.wins,
        replies.maker.chunk,
        now_ms,
    )
}

/// What came of a placement: the order's id and state, and the reason where the kernel itself
/// refused it after it was registered.
pub open spec fn outcome_of(
    m: CoreModel,
    q: OrderRequestModel,
    replies: Replies,
    maker_timeout_ms: i64,
    now_ms: i64,
) -> PlaceOutcomeModel {
    let settled = settled_as(m, q, replies, maker_timeout_ms, now_ms);
    PlaceOutcomeModel {
        order_id: placing::next_order_id(m),
        status: match settled {
            SubmittedModel::Waits => OrderStatus::Pending,
            SubmittedModel::Fills { .. } => OrderStatus::Filled,
            SubmittedModel::Refused { .. } => OrderStatus::Rejected,
            SubmittedModel::Rests { .. } => if !fills_at_once(
                m,
                q,
                replies,
                maker_timeout_ms,
                now_ms,
            ) {
                OrderStatus::Live
            } else if replies.maker.chunk@ < q.size@ {
                OrderStatus::PartiallyFilled
            } else {
                OrderStatus::Filled
            },
        },
        rejection: match settled {
            SubmittedModel::Refused { error, release } => Some(error),
            _ => None,
        },
    }
}

/// The kernel after a placement. Whatever refused the order, the refusal is the last error.
pub open spec fn after_placement(
    m: CoreModel,
    q: OrderRequestModel,
    replies: Replies,
    positions: Seq<OpenPosition>,
    maker_timeout_ms: i64,
    entry_gates: bool,
    now_ms: i64,
) -> CoreModel {
    match placing::gate_refusal(m, q, replies.gates, positions, entry_gates, now_ms) {
        Some(e) => service::error_noted(m, e.code, e.message, now_ms),
        None => match funding_refusal(q, replies.unfunded) {
            Some(e) => service::error_noted(id_taken(m), e.code, e.message, now_ms),
            None => match settled_as(m, q, replies, maker_timeout_ms, now_ms) {
                SubmittedModel::Refused { error, release } => service::error_noted(
                    id_taken(m),
                    error.code,
                    error.message,
                    now_ms,
                ),
                _ => id_taken(m),
            },
        },
    }
}

/// A placement is the one that a request comes to.
pub open spec fn is_placement(
    p: Placement,
    m: CoreModel,
    q: OrderRequestModel,
    replies: Replies,
    maker_timeout_ms: i64,
    now_ms: i64,
) -> bool {
    let order = registered(placing::next_order_id(m), q, maker_timeout_ms, now_ms);
    &&& p.outcome@ == outcome_of(m, q, replies, maker_timeout_ms, now_ms)
    &&& p.order@ == order
    &&& p.reserve == reserved_for(q)
    &&& p.settled@ == settled_as(m, q, replies, maker_timeout_ms, now_ms)
    &&& match p.fill {
        Some(f) => {
            &&& fills_at_once(m, q, replies, maker_timeout_ms, now_ms)
            &&& f.trade_id@ == placing::part_trade_id(order, replies.maker.chunk, now_ms)
            &&& f.size == replies.maker.chunk
            &&& f.price == q.price
        },
        None => !fills_at_once(m, q, replies, maker_timeout_ms, now_ms),
    }
    &&& service::events_model(p.events@) == match p.outcome@.rejection {
        Some(error) => seq![EventModel::Error { error }],
        None => Seq::empty(),
    }
}

fn register(id: &String, req: &OrderRequest, maker_timeout_ms: i64, now_ms: i64) -> (r:
    TrackedOrder)
    ensures
        r@ == registered(id@, req@, maker_timeout_ms, now_ms),
{
    TrackedOrder {
        order_id: id.clone(),
        token_id: req.token_id.clone(),
        condition_id: req.condition_id.clone(),
        side: req.side,
        mode: req.mode,
        price: req.price,
        size: req.size,
        filled_size: Decimal::zero(),
        status: OrderStatus::Pending,
        live: true,
        internal_key: req.internal_key.clone(),
        strategy: req.strategy.clone(),
        asset: req.asset.clone(),
        direction: req.direction.clone(),
        round_slot: req.round_slot,
        submitted_at_ms: now_ms,
        updated_at_ms: now_ms,
        maker_timeout_ms,
        escalate_at_ms: None,
        venue_order_id: None,
    }
}

/// A kernel once a placement was carried out: a failure on the way is the last error.
pub open spec fn carried_out(m: CoreModel, failure: Option<CoreErrorModel>, now_ms: i64) -> CoreModel {
    match failure {
        Some(e) => service::error_noted(m, e.code, e.message, now_ms),
        None => m,
    }
}

/// What a placement needs of the numbers that it is about.
pub open spec fn placement_ok(
    m: CoreModel,
    q: OrderRequestModel,
    replies: Replies,
    maker_timeout_ms: i64,
    now_ms: i64,
) -> bool {
    &&& m.next_id < u64::MAX
    &&& m.place_cooldowns.dom().contains(q.internal_key)
        ==> m.place_cooldowns[q.internal_key].next_ok_ms - now_ms <= i64::MAX
    &&& q.side == Side::Buy ==> q.price.times_ok(q.size)
    &&& q.mode == FillPolicy::MakerThenTaker ==> i64::MIN <= now_ms + placing::maker_timeout(
        maker_timeout_ms,
        m.config.default_maker_timeout_ms,
    ) <= i64::MAX
    &&& Decimal::spec_zero().plus_ok(replies.maker.chunk)
}

impl Core {
    fn place_inner(
        &mut self,
        req: &OrderRequest,
        replies: Replies,
        positions: &Vec<OpenPosition>,
        maker_timeout_ms: i64,
        entry_gates: bool,
        now_ms: i64,
    ) -> (r: Result<Placement, CoreError>)
        requires
            old(self).wf(),
            placement_ok(old(self)@, req@, replies, maker_timeout_ms, now_ms),
        ensures
            final(self).wf(),
            final(self)@ == after_placement(
                old(self)@,
                req@,
                replies,
                positions@,
                maker_timeout_ms,
                entry_gates,
                now_ms,
            ),
            match r {
                Ok(p) => {
                    &&& placement_refusal(
                        old(self)@,
                        req@,
                        replies,
                        positions@,
                        entry_gates,
                        now_ms,
                    ) is None
                    &&& is_placement(p, old(self)@, req@, replies, maker_timeout_ms, now_ms)
                },
                Err(e) => placement_refusal(
                    old(self)@,
                    req@,
                    replies,
                    positions@,
                    entry_gates,
                    now_ms,
                ) == Some(e@),
            },
    {
        let ghost m = self@;
        let maker = replies.maker;
        let taker = replies.taker;
        let unfunded = replies.unfunded;
        if let Err(e) = self.place_gated(req, replies.gates, positions, entry_gates, now_ms) {
            return Err(e);
        }
        let id = self.new_order_id();
        let reserve = if req.side == Side::Buy {
            if let Some(e) = unfunded {
                self.note_error(&e, now_ms);
                return Err(e);
            }
            Some(req.price.times(req.size))
        } else {
            None
        };
        let order = register(&id, req, maker_timeout_ms, now_ms);
        let (settled, events) = self.place_after_submit(&order, taker, maker_timeout_ms, now_ms);
        let mut fill: Option<MakerFill> = None;
        let mut rejection: Option<CoreError> = None;
        let status = match &settled {
            Submitted::Waits => OrderStatus::Pending,
            Submitted::Fills { trade_id, size, price } => OrderStatus::Filled,
            Submitted::Refused { error, release } => {
                rejection = Some(error.clone());
                OrderStatus::Rejected
            },
            Submitted::Rests { escalate_at_ms } => {
                fill =
                placing::try_maker_fill(
                    &order,
                    maker.crosses,
                    maker.eligible_at_ms,
                    maker.wins,
                    maker.chunk,
                    now_ms,
                );
                if fill.is_none() {
                    OrderStatus::Live
                } else if maker.chunk.less(req.size) {
                    OrderStatus::PartiallyFilled
                } else {
                    OrderStatus::Filled
                }
            },
        };
        Ok(
            Placement {
                outcome: PlaceOutcome { order_id: id, status, rejection },
                order,
                reserve,
                settled,
                fill,
                events,
            },
        )
    }

    /// Places an order that may open exposure, and says what came of it.
    pub fn place_outcome(
        &mut self,
        req: &OrderRequest,
        replies: Replies,
        positions: &Vec<OpenPosition>,
        maker_timeout_ms: i64,
        now_ms: i64,
    ) -> (r: Result<Placement, CoreError>)
        requires
            old(self).wf(),
            placement_ok(old(self)@, req@, replies, maker_timeout_ms, now_ms),
        ensures
            final(self).wf(),
            final(self)@ == after_placement(
                old(self)@,
                req@,
                replies,
                positions@,
                maker_timeout_ms,
                true,
                now_ms,
            ),
            match r {
                Ok(p) => {
                    &&& placement_refusal(
                        old(self)@,
                        req@,
                        replies,
                        positions@,
                        true,
                        now_ms,
                    ) is None
                    &&& is_placement(p, old(self)@, req@, replies, maker_timeout_ms, now_ms)
                },
                Err(e) => placement_refusal(
                    old(self)@,
                    req@,
                    replies,
                    positions@,
                    true,
                    now_ms,
                ) == Some(e@),
            },
    {
        self.place_inner(req, replies, positions, maker_timeout_ms, true, now_ms)
    }

    /// Takes in how the carrying out of a placement went, and says what came of the placement: the
    /// order in the state that the order manager holds it in, or the failure of a component, which
    /// refuses the order like a gate does and is noted like any other refusal.
    pub fn finish_placement(
        &mut self,
        outcome: PlaceOutcome,
        stands: Option<OrderStatus>,
        failure: Option<CoreError>,
        now_ms: i64,
    ) -> (r: Result<PlaceOutcome, CoreError>)
        requires
            old(self).wf(),
        ensures
            final(self).wf(),
            final(self)@ == carried_out(old(self)@, placing::opt_error(failure), now_ms),
            match r {
                Ok(o) => {
                    &&& failure is None
                    &&& o@ == (PlaceOutcomeModel {
                        status: match stands {
                            Some(status) => status,
                            None => OrderStatus::Pending,
                        },
                        ..outcome@
                    })
                },
                Err(e) => failure == Some(e),
            },
    {
        match failure {
            Some(e) => {
                self.note_error(&e, now_ms);
                Err(e)
            },
            None => Ok(
                PlaceOutcome {
                    order_id: outcome.order_id,
                    status: match stands {
                        Some(status) => status,
                        None => OrderStatus::Pending,
                    },
                    rejection: outcome.rejection,
                },
            ),
        }
    }

    /// Places the leg that completes an entry that was begun: the position is there already, so the
    /// gates that keep a second one out do not apply. The risk gate does.
    pub fn place_escalated(
        &mut self,
        req: &OrderRequest,
        replies: Replies,
        positions: &Vec<OpenPosition>,
        now_ms: i64,
    ) -> (r: Result<Placement, CoreError>)
        requires
            old(self).wf(),
            placement_ok(old(self)@, req@, replies, 0, now_ms),
        ensures
            final(self).wf(),
            final(self)@ == after_placement(
                old(self)@,
                req@,
                replies,
                positions@,
                0,
                false,
                now_ms,
            ),
            match r {
                Ok(p) => {
                    &&& placement_refusal(
                        old(self)@,
                        req@,
                        replies,
                        positions@,
                        false,
                        now_ms,
                    ) is None
                    &&& is_placement(p, old(self)@, req@, replies, 0, now_ms)
                },
                Err(e) => placement_refusal(
                    old(self)@,
                    req@,
                    replies,
                    positions@,
                    false,
                    now_ms,
                ) == Some(e@),
            },
    {
        self.place_inner(req, replies, positions, 0, false, now_ms)
    }
}

/// Whatever refuses an order, the refusal is the last error: a gate, the ledger, the matcher, or the
/// order manager as the placement is carried out.
pub proof fn law_a_refused_order_is_the_last_error(
    m: CoreModel,
    q: OrderRequestModel,
    replies: Replies,
    positions: Seq<OpenPosition>,
    maker_timeout_ms: i64,
    entry_gates: bool,
    failure: Option<CoreErrorModel>,
    now_ms: i64,
)
    requires
        failure is Some ==> placement_refusal(
            m,
            q,
            replies,
            positions,
            entry_gates,
            now_ms,
        ) is None,
    ensures
        ({
            let end = carried_out(
                after_placement(
                    m,
                    q,
                    replies,
                    positions,
                    maker_timeout_ms,
                    entry_gates,
                    now_ms,
                ),
                failure,
                now_ms,
            );
            let refusal = match placement_refusal(
                m,
                q,
                replies,
                positions,
                entry_gates,
                now_ms,
            ) {
                Some(e) => Some(e),
                None => match failure {
                    Some(e) => Some(e),
                    None => outcome_of(m, q, replies, maker_timeout_ms, now_ms).rejection,
                },
            };
            match refusal {
                Some(e) => end.last_error == Some(
                    service::LastErrorModel { ts_ms: now_ms, code: e.code, message: e.message },
                ),
                None => end.last_error == m.last_error,
            }
        }),
{
}

/// A placement changes nothing of the kernel but the last error and the next id: no refusal costs
/// an intent its place, frees one, or touches what is owed.
pub proof fn law_a_placement_leaves_the_rest_alone(
    m: CoreModel,
    q: OrderRequestModel,
    replies: Replies,
    positions: Seq<OpenPosition>,
    maker_timeout_ms: i64,
    entry_gates: bool,
    now_ms: i64,
)
    ensures
        ({
            let end = after_placement(
                m,
                q,
                replies,
                positions,
                maker_timeout_ms,
                entry_gates,
                now_ms,
            );
            end == (CoreModel { last_error: end.last_error, next_id: end.next_id, ..m })
        }),
{
}

} // verus!
