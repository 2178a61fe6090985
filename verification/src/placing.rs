//! Placing orders and taking them back: the gates that an order passes, what becomes of it where
//! there is no venue to say so, and how a resting order gives up and crosses the book.
use vstd::prelude::*;
use vstd::string::*;

use crate::audit;
use crate::decimal;
use crate::decimal::Decimal;
use crate::exits;
use crate::model;
use crate::model::{
    CoreError, CoreErrorCode, CoreErrorModel, Event, EventModel, FillPolicy, Mode, OpenPosition,
    OrderRequest, OrderRequestModel, Side, SignalDirection, TrackedOrder, TrackedOrderModel,
};
use crate::rejections;
use crate::service;
use crate::service::{Core, CoreModel};
use crate::text;

verus! {

// ---------------------------------------------------------------------------------------------
// The gates

/// What the parts of the kernel say of an order that is to be placed.
#[derive(Debug)]
pub struct GateAnswers {
    /// Why the risk gate refuses the order, where it does.
    pub risk: Option<CoreError>,
    /// Until when the loss breaker holds the order's strategy, where it does.
    pub breaker_until_ms: Option<i64>,
    /// Why the position book would not open another position, where it would not.
    pub cannot_open: Option<String>,
    /// Whether the order's strategy holds its positions to settlement.
    pub holds_to_settlement: bool,
}

/// A position is the other half of a pair that an order would complete.
pub open spec fn is_other_half(p: OpenPosition, q: OrderRequestModel) -> bool {
    p.asset@ == q.asset && p.condition_id@ == q.condition_id && p.strategy@ == q.strategy
        && p.direction != exits::direction_named(q.direction)
}

/// Some position is the other half of a pair that an order would complete.
pub open spec fn completes_pair(positions: Seq<OpenPosition>, q: OrderRequestModel) -> bool {
    exists|i: int| 0 <= i < positions.len() && is_other_half(#[trigger] positions[i], q)
}

/// The refusal of an intent that waits out a refusal of the venue.
pub open spec fn cooldown_refusal(m: CoreModel, q: OrderRequestModel, now_ms: i64) -> Option<
    CoreErrorModel,
> {
    if m.place_cooldowns.dom().contains(q.internal_key) && now_ms
        < m.place_cooldowns[q.internal_key].next_ok_ms {
        let c = m.place_cooldowns[q.internal_key];
        Some(
            model::spec_error(
                CoreErrorCode::RiskRejected,
                "intent "@ + q.internal_key + " in rejection cooldown ("@ + text::int_text(
                    c.next_ok_ms - now_ms,
                ) + "ms left): "@ + c.last_error,
            ),
        )
    } else {
        None
    }
}

/// The refusal of an entry because its strategy lost too often in a row.
pub open spec fn breaker_refusal(until_ms: Option<i64>, q: OrderRequestModel) -> Option<
    CoreErrorModel,
> {
    match until_ms {
        Some(t) => Some(
            model::spec_error(
                CoreErrorCode::RiskRejected,
                "breaker active until "@ + text::int_text(t as int) + " for strategy "@
                    + q.strategy,
            ),
        ),
        None => None,
    }
}

/// The refusal of an entry by the position book. The second half of a pair that is held to
/// settlement is let through where the book objects only to a second position on the asset: the
/// pair pays the same whichever side wins.
pub open spec fn capacity_refusal(
    cannot_open: Option<Seq<char>>,
    holds_to_settlement: bool,
    positions: Seq<OpenPosition>,
    q: OrderRequestModel,
) -> Option<CoreErrorModel> {
    match cannot_open {
        Some(why) => if text::starts(why, "Already in"@) && holds_to_settlement && completes_pair(
            positions,
            q,
        ) {
            None
        } else {
            Some(model::spec_error(CoreErrorCode::RiskRejected, why))
        },
        None => None,
    }
}

/// The refusal of an entry by the gates that only entries pass.
pub open spec fn entry_refusal(
    m: CoreModel,
    q: OrderRequestModel,
    breaker_until_ms: Option<i64>,
    cannot_open: Option<Seq<char>>,
    holds_to_settlement: bool,
    positions: Seq<OpenPosition>,
) -> Option<CoreErrorModel> {
    if audit::audit_refusal(m) is Some {
        audit::audit_refusal(m)
    } else if breaker_refusal(breaker_until_ms, q) is Some {
        breaker_refusal(breaker_until_ms, q)
    } else {
        capacity_refusal(cannot_open, holds_to_settlement, positions, q)
    }
}

/// What an error says, where there is one.
pub open spec fn opt_error(e: Option<CoreError>) -> Option<CoreErrorModel> {
    match e {
        Some(x) => Some(x@),
        None => None,
    }
}

/// The refusal of an order: by its intent's cooldown, by the risk gate, or, for a buy that opens
/// exposure, by the gates of entries. A sell passes none of those.
pub open spec fn gate_refusal(
    m: CoreModel,
    q: OrderRequestModel,
    answers: GateAnswers,
    positions: Seq<OpenPosition>,
    entry_gates: bool,
    now_ms: i64,
) -> Option<CoreErrorModel> {
    if cooldown_refusal(m, q, now_ms) is Some {
        cooldown_refusal(m, q, now_ms)
    } else if answers.risk is Some {
        opt_error(answers.risk)
    } else if entry_gates && q.side == Side::Buy {
        entry_refusal(
            m,
            q,
            answers.breaker_until_ms,
            model::opt_text(answers.cannot_open),
            answers.holds_to_settlement,
            positions,
        )
    } else {
        None
    }
}

fn has_other_half(positions: &Vec<OpenPosition>, req: &OrderRequest, direction: SignalDirection) -> (r:
    bool)
    requires
        direction == exits::direction_named(req@.direction),
    ensures
        r == completes_pair(positions@, req@),
{
    let mut i: usize = 0;
    while i < positions.len()
        invariant
            i <= positions@.len(),
            direction == exits::direction_named(req@.direction),
            forall|j: int| 0 <= j < i ==> !is_other_half(#[trigger] positions@[j], req@),
        decreases positions@.len() - i,
    {
        let p = &positions[i];
        if text::same_text(p.asset.as_str(), req.asset.as_str()) && text::same_text(
            p.condition_id.as_str(),
            req.condition_id.as_str(),
        ) && text::same_text(p.strategy.as_str(), req.strategy.as_str()) && p.direction
            != direction {
            assert(is_other_half(positions@[i as int], req@));
            return true;
        }
        i = i + 1;
    }
    false
}

/// The beginning of an order's id says how the kernel runs: only an order that can reach the venue
/// is called live.
pub open spec fn id_prefix(mode: Mode) -> Seq<char> {
    match mode {
        Mode::Live => "live"@,
        Mode::ReadOnly => "readonly"@,
        Mode::Dry => "dry"@,
    }
}

/// The id of the next order.
pub open spec fn next_order_id(m: CoreModel) -> Seq<char> {
    id_prefix(m.config.mode) + "_"@ + text::nat_text(m.next_id as nat)
}

/// Why an order is refused on the live path.
pub open spec fn pending_refusal(
    m: CoreModel,
    q: OrderRequestModel,
    risk: Option<CoreErrorModel>,
) -> Option<CoreErrorModel> {
    if q.side == Side::Buy && audit::audit_refusal(m) is Some {
        audit::audit_refusal(m)
    } else {
        risk
    }
}

impl Core {
    /// Lets an order through the gates, or refuses it; a refusal is the last error.
    pub fn place_gated(
        &mut self,
        req: &OrderRequest,
        answers: GateAnswers,
        positions: &Vec<OpenPosition>,
        entry_gates: bool,
        now_ms: i64,
    ) -> (r: Result<(), CoreError>)
        requires
            old(self).wf(),
            old(self)@.place_cooldowns.dom().contains(req@.internal_key) ==> old(
                self,
            )@.place_cooldowns[req@.internal_key].next_ok_ms - now_ms <= i64::MAX,
        ensures
            final(self).wf(),
            match r {
                Ok(_) => {
                    &&& gate_refusal(
                        old(self)@,
                        req@,
                        answers,
                        positions@,
                        entry_gates,
                        now_ms,
                    ) is None
                    &&& final(self)@ == old(self)@
                },
                Err(e) => {
                    &&& gate_refusal(
                        old(self)@,
                        req@,
                        answers,
                        positions@,
                        entry_gates,
                        now_ms,
                    ) == Some(e@)
                    &&& final(self)@ == service::error_noted(
                        old(self)@,
                        e.code,
                        e.message@,
                        now_ms,
                    )
                },
            },
    {
        let outcome = self.gate(req, answers, positions, entry_gates, now_ms);
        if let Err(e) = &outcome {
            self.note_error(e, now_ms);
        }
        outcome
    }

    fn gate(
        &self,
        req: &OrderRequest,
        answers: GateAnswers,
        positions: &Vec<OpenPosition>,
        entry_gates: bool,
        now_ms: i64,
    ) -> (r: Result<(), CoreError>)
        requires
            self@.place_cooldowns.dom().contains(req@.internal_key)
                ==> self@.place_cooldowns[req@.internal_key].next_ok_ms - now_ms <= i64::MAX,
        ensures
            match r {
                Ok(_) => gate_refusal(
                    self@,
                    req@,
                    answers,
                    positions@,
                    entry_gates,
                    now_ms,
                ) is None,
                Err(e) => gate_refusal(self@, req@, answers, positions@, entry_gates, now_ms)
                    == Some(e@),
            },
    {
        if let Some(cd) = self.place_cooldowns.get(req.internal_key.as_str()) {
            if now_ms < cd.next_ok_ms {
                let mut message = text::join("intent ", req.internal_key.as_str());
                message.append(" in rejection cooldown (");
                message.append(text::write_i64(cd.next_ok_ms - now_ms).as_str());
                message.append("ms left): ");
                message.append(cd.last_error.as_str());
                return Err(CoreError::new(CoreErrorCode::RiskRejected, message));
            }
        }
        if let Some(e) = answers.risk {
            return Err(e);
        }
        if entry_gates && req.side == Side::Buy {
            if let Err(e) = self.audit_entry_gate() {
                return Err(e);
            }
            if let Some(t) = answers.breaker_until_ms {
                let mut message = text::join(
                    "breaker active until ",
                    text::write_i64(t).as_str(),
                );
                message.append(" for strategy ");
                message.append(req.strategy.as_str());
                return Err(CoreError::new(CoreErrorCode::RiskRejected, message));
            }
            if let Some(why) = answers.cannot_open {
                let direction = exits::parse_direction(req.direction.as_str());
                let pair = text::starts_with(why.as_str(), "Already in")
                    && answers.holds_to_settlement && has_other_half(positions, req, direction);
                if !pair {
                    return Err(CoreError::new(CoreErrorCode::RiskRejected, why));
                }
            }
        }
        Ok(())
    }

    /// Takes an order in on the live path, which registers it before the venue has answered: a buy
    /// is held against the audit, and every order against the risk gate. An order that passes gets
    /// its id, and a buy what it reserves.
    pub fn place_pending(&mut self, req: &OrderRequest, risk: Option<CoreError>) -> (r: Result<
        (String, Option<Decimal>),
        CoreError,
    >)
        requires
            old(self).wf(),
            old(self)@.next_id < u64::MAX,
            req.side == Side::Buy ==> req.price.times_ok(req.size),
        ensures
            final(self).wf(),
            match r {
                Ok(x) => {
                    &&& pending_refusal(old(self)@, req@, opt_error(risk)) is None
                    &&& x.0@ == next_order_id(old(self)@)
                    &&& x.1 == if req.side == Side::Buy {
                        Some(req.price.spec_times(req.size))
                    } else {
                        None
                    }
                    &&& final(self)@ == (CoreModel {
                        next_id: (old(self)@.next_id + 1) as u64,
                        ..old(self)@
                    })
                },
                Err(e) => {
                    &&& pending_refusal(old(self)@, req@, opt_error(risk)) == Some(e@)
                    &&& final(self)@ == old(self)@
                },
            },
    {
        if req.side == Side::Buy {
            if let Err(e) = self.audit_entry_gate() {
                return Err(e);
            }
        }
        if let Some(e) = risk {
            return Err(e);
        }
        let id = self.new_order_id();
        if req.side == Side::Buy {
            Ok((id, Some(req.price.times(req.size))))
        } else {
            Ok((id, None))
        }
    }

    /// Takes the id of a new order.
    pub fn new_order_id(&mut self) -> (r: String)
        requires
            old(self).wf(),
            old(self)@.next_id < u64::MAX,
        ensures
            final(self).wf(),
            r@ == next_order_id(old(self)@),
            final(self)@ == (CoreModel { next_id: (old(self)@.next_id + 1) as u64, ..old(self)@ }),
    {
        let prefix = match self.config.mode {
            Mode::Live => "live",
            Mode::ReadOnly => "readonly",
            Mode::Dry => "dry",
        };
        let mut id = text::join(prefix, "_");
        id.append(text::write_u64(self.next_id).as_str());
        self.next_id = self.next_id + 1;
        id
    }
}

/// Two orders of one kernel never share an id.
pub proof fn law_order_ids_are_never_reused(m: CoreModel, later: CoreModel)
    requires
        later.config.mode == m.config.mode,
        later.next_id > m.next_id,
    ensures
        next_order_id(later) != next_order_id(m),
{
    if next_order_id(later) == next_order_id(m) {
        let head = id_prefix(m.config.mode) + "_"@;
        let a = text::nat_text(m.next_id as nat);
        let b = text::nat_text(later.next_id as nat);
        assert((head + a).skip(head.len() as int) =~= a);
        assert((head + b).skip(head.len() as int) =~= b);
        text::lemma_nat_text_injective(m.next_id as nat, later.next_id as nat);
    }
}

/// The gates of entries never hold up a sell: only its intent's cooldown and the risk gate can.
pub proof fn law_no_entry_gate_holds_up_a_sell(
    m: CoreModel,
    q: OrderRequestModel,
    answers: GateAnswers,
    positions: Seq<OpenPosition>,
    entry_gates: bool,
    now_ms: i64,
)
    requires
        q.side == Side::Sell,
        answers.risk is None,
        !rejections::blocked(m.place_cooldowns, q.internal_key, now_ms),
    ensures
        gate_refusal(m, q, answers, positions, entry_gates, now_ms) is None,
{
}

/// A failing audit refuses every entry that opens exposure.
pub proof fn law_a_failing_audit_refuses_every_entry(
    m: CoreModel,
    q: OrderRequestModel,
    answers: GateAnswers,
    positions: Seq<OpenPosition>,
    now_ms: i64,
)
    requires
        m.audit.halted,
        q.side == Side::Buy,
    ensures
        gate_refusal(m, q, answers, positions, true, now_ms) is Some,
{
}

// ---------------------------------------------------------------------------------------------
// What becomes of an order where the kernel fills by itself

/// The best price on the side that an order would hit.
pub open spec fn best_text(side: Side, best: Option<Decimal>) -> Seq<char> {
    match best {
        Some(p) => match side {
            Side::Buy => "best ask "@ + decimal::text_of(p),
            Side::Sell => "best bid "@ + decimal::text_of(p),
        },
        None => match side {
            Side::Buy => "no ask rests"@,
            Side::Sell => "no bid rests"@,
        },
    }
}

/// Why the book cannot fill a taker: nothing crosses its limit, or not enough does.
pub open spec fn taker_refusal_text(
    o: TrackedOrderModel,
    crosses: bool,
    depth: Decimal,
    best: Option<Decimal>,
) -> Seq<char> {
    if !crosses {
        "taker_no_crossing_liquidity: no "@ + match o.side {
            Side::Buy => "ask"@,
            Side::Sell => "bid"@,
        } + " at or inside the "@ + decimal::text_of(o.price) + match o.side {
            Side::Buy => " buy limit ("@,
            Side::Sell => " sell limit ("@,
        } + best_text(o.side, best) + "; token "@ + o.token_id + ", size "@ + decimal::text_of(
            o.size,
        ) + ")"@
    } else {
        "taker_insufficient_depth: only "@ + decimal::text_of(depth) + " of "@ + decimal::text_of(
            o.size,
        ) + " shares rest at or inside the "@ + decimal::text_of(o.price) + match o.side {
            Side::Buy => " buy limit ("@,
            Side::Sell => " sell limit ("@,
        } + best_text(o.side, best) + "; token "@ + o.token_id + ")"@
    }
}

/// The refusal of a taker that the book cannot fill, with the code of a venue that would kill it.
pub fn taker_refusal(
    order: &TrackedOrder,
    crosses: bool,
    depth: Decimal,
    best: Option<Decimal>,
) -> (r: CoreError)
    ensures
        r@ == model::spec_error(
            CoreErrorCode::WouldCross,
            taker_refusal_text(order@, crosses, depth, best),
        ),
{
    let best_shown = match best {
        Some(p) => match order.side {
            Side::Buy => text::join("best ask ", p.text().as_str()),
            Side::Sell => text::join("best bid ", p.text().as_str()),
        },
        None => match order.side {
            Side::Buy => "no ask rests".to_owned(),
            Side::Sell => "no bid rests".to_owned(),
        },
    };
    let limit = match order.side {
        Side::Buy => " buy limit (",
        Side::Sell => " sell limit (",
    };
    if !crosses {
        let mut message = "taker_no_crossing_liquidity: no ".to_owned();
        message.append(
            match order.side {
                Side::Buy => "ask",
                Side::Sell => "bid",
            },
        );
        message.append(" at or inside the ");
        message.append(order.price.text().as_str());
        message.append(limit);
        message.append(best_shown.as_str());
        message.append("; token ");
        message.append(order.token_id.as_str());
        message.append(", size ");
        message.append(order.size.text().as_str());
        message.append(")");
        return CoreError::new(CoreErrorCode::WouldCross, message);
    }
    let mut message = "taker_insufficient_depth: only ".to_owned();
    message.append(depth.text().as_str());
    message.append(" of ");
    message.append(order.size.text().as_str());
    message.append(" shares rest at or inside the ");
    message.append(order.price.text().as_str());
    message.append(limit);
    message.append(best_shown.as_str());
    message.append("; token ");
    message.append(order.token_id.as_str());
    message.append(")");
    CoreError::new(CoreErrorCode::WouldCross, message)
}

/// What the book says of a taker.
#[derive(Clone, Copy, Debug)]
pub struct TakerView {
    /// The price of a fill of the whole order, slippage with it; nothing where the book cannot
    /// fill it within its limit.
    pub fill_price: Option<Decimal>,
    /// Whether anything crosses the limit.
    pub crosses: bool,
    /// How much rests at or inside the limit.
    pub depth: Decimal,
    /// The best price on the side that the order would hit.
    pub best: Option<Decimal>,
}

/// What becomes of an order that was submitted.
#[derive(Debug)]
pub enum Submitted {
    /// The venue will say.
    Waits,
    /// It fills at once, in full, as one trade.
    Fills { trade_id: String, size: Decimal, price: Decimal },
    /// It is refused; a buy's reservation is released.
    Refused { error: CoreError, release: bool },
    /// It rests on the book, and may give up resting at an instant.
    Rests { escalate_at_ms: Option<i64> },
}

/// What becomes of an order that was submitted.
pub enum SubmittedModel {
    Waits,
    Fills { trade_id: Seq<char>, size: Decimal, price: Decimal },
    Refused { error: CoreErrorModel, release: bool },
    Rests { escalate_at_ms: Option<i64> },
}

impl View for Submitted {
    type V = SubmittedModel;

    open spec fn view(&self) -> SubmittedModel {
        match self {
            Submitted::Waits => SubmittedModel::Waits,
            Submitted::Fills { trade_id, size, price } => SubmittedModel::Fills {
                trade_id: trade_id@,
                size: *size,
                price: *price,
            },
            Submitted::Refused { error, release } => SubmittedModel::Refused {
                error: error@,
                release: *release,
            },
            Submitted::Rests { escalate_at_ms } => SubmittedModel::Rests {
                escalate_at_ms: *escalate_at_ms,
            },
        }
    }
}

/// How long an order rests before it gives up: its own time, or the kernel's default.
pub open spec fn maker_timeout(own_ms: i64, default_ms: i64) -> i64 {
    if own_ms > 0 {
        own_ms
    } else {
        default_ms
    }
}

/// The name of a trade that fills a whole order.
pub open spec fn whole_trade_id(order_id: Seq<char>, now_ms: i64) -> Seq<char> {
    order_id + ":"@ + text::int_text(now_ms as int)
}

/// What becomes of an order that was submitted: where the kernel fills by itself a taker fills in
/// full or is refused, and others rest.
pub open spec fn submitted(
    m: CoreModel,
    o: TrackedOrderModel,
    view: TakerView,
    maker_timeout_ms: i64,
    now_ms: i64,
) -> SubmittedModel {
    if !m.config.mode.is_local() {
        SubmittedModel::Waits
    } else {
        match o.mode {
            FillPolicy::Taker => match view.fill_price {
                Some(price) => SubmittedModel::Fills {
                    trade_id: whole_trade_id(o.order_id, now_ms),
                    size: o.size,
                    price,
                },
                None => SubmittedModel::Refused {
                    error: model::spec_error(
                        CoreErrorCode::WouldCross,
                        taker_refusal_text(o, view.crosses, view.depth, view.best),
                    ),
                    release: o.side == Side::Buy,
                },
            },
            FillPolicy::Maker => SubmittedModel::Rests { escalate_at_ms: None },
            FillPolicy::MakerThenTaker => SubmittedModel::Rests {
                escalate_at_ms: Some(
                    (now_ms + maker_timeout(
                        maker_timeout_ms,
                        m.config.default_maker_timeout_ms,
                    )) as i64,
                ),
            },
        }
    }
}

/// A part of a resting order that fills.
#[derive(Debug)]
pub struct MakerFill {
    pub trade_id: String,
    pub size: Decimal,
    pub price: Decimal,
}

/// Whether a resting order fills in part now: it is working and not full, the book crosses it, it
/// has rested long enough, its turn has come, and there is something to take.
pub open spec fn maker_fills(
    o: TrackedOrderModel,
    crosses: bool,
    eligible_at_ms: i64,
    wins: bool,
    chunk: Decimal,
    now_ms: i64,
) -> bool {
    o.live && o.filled_size@ < o.size@ && crosses && now_ms >= eligible_at_ms && wins && chunk@ > 0
}

/// The name of a trade that fills a part of a resting order.
pub open spec fn part_trade_id(o: TrackedOrderModel, chunk: Decimal, now_ms: i64) -> Seq<char> {
    o.order_id + ":"@ + text::int_text(now_ms as int) + ":"@ + decimal::text_of(
        o.filled_size.spec_plus(chunk),
    )
}

/// Fills a part of a resting order, at its own limit, where it fills. Each part is a trade of its
/// own, so that a later one is booked on top and not in its place.
pub fn try_maker_fill(
    order: &TrackedOrder,
    crosses: bool,
    eligible_at_ms: i64,
    wins: bool,
    chunk: Decimal,
    now_ms: i64,
) -> (r: Option<MakerFill>)
    requires
        maker_fills(order@, crosses, eligible_at_ms, wins, chunk, now_ms)
            ==> order.filled_size.plus_ok(chunk),
    ensures
        match r {
            Some(f) => {
                &&& maker_fills(order@, crosses, eligible_at_ms, wins, chunk, now_ms)
                &&& f.trade_id@ == part_trade_id(order@, chunk, now_ms)
                &&& f.size == chunk
                &&& f.price == order.price
            },
            None => !maker_fills(order@, crosses, eligible_at_ms, wins, chunk, now_ms),
        },
{
    if !order.live || !order.filled_size.less(order.size) || !crosses || now_ms < eligible_at_ms
        || !wins || !chunk.is_positive() {
        return None;
    }
    let mut trade_id = text::join(order.order_id.as_str(), ":");
    trade_id.append(text::write_i64(now_ms).as_str());
    trade_id.append(":");
    trade_id.append(order.filled_size.plus(chunk).text().as_str());
    Some(MakerFill { trade_id, size: chunk, price: order.price })
}

impl Core {
    /// Settles an order that was submitted, where there is no venue to do it. A taker that the
    /// book cannot fill is refused as a venue would kill it: the refusal is the last error, and is
    /// told.
    pub fn place_after_submit(
        &mut self,
        order: &TrackedOrder,
        view: TakerView,
        maker_timeout_ms: i64,
        now_ms: i64,
    ) -> (r: (Submitted, Vec<Event>))
        requires
            old(self).wf(),
            order.mode == FillPolicy::MakerThenTaker ==> i64::MIN <= now_ms + maker_timeout(
                maker_timeout_ms,
                old(self)@.config.default_maker_timeout_ms,
            ) <= i64::MAX,
        ensures
            final(self).wf(),
            r.0@ == submitted(old(self)@, order@, view, maker_timeout_ms, now_ms),
            match submitted(old(self)@, order@, view, maker_timeout_ms, now_ms) {
                SubmittedModel::Refused { error, release } => {
                    &&& final(self)@ == service::error_noted(
                        old(self)@,
                        error.code,
                        error.message,
                        now_ms,
                    )
                    &&& service::events_model(r.1@) == seq![EventModel::Error { error }]
                },
                _ => {
                    &&& final(self)@ == old(self)@
                    &&& service::events_model(r.1@) == Seq::<EventModel>::empty()
                },
            },
    {
        if !self.config.mode.settles_locally() {
            return (Submitted::Waits, service::no_event());
        }
        match order.mode {
            FillPolicy::Taker => match view.fill_price {
                Some(price) => {
                    let mut trade_id = text::join(order.order_id.as_str(), ":");
                    trade_id.append(text::write_i64(now_ms).as_str());
                    (
                        Submitted::Fills { trade_id, size: order.size, price },
                        service::no_event(),
                    )
                },
                None => {
                    let error = taker_refusal(order, view.crosses, view.depth, view.best);
                    let events = self.emit_error_at(error.clone(), now_ms);
                    (Submitted::Refused { error, release: order.side == Side::Buy }, events)
                },
            },
            FillPolicy::Maker => {
                (Submitted::Rests { escalate_at_ms: None }, service::no_event())
            },
            FillPolicy::MakerThenTaker => {
                let timeout: i64 = if maker_timeout_ms > 0 {
                    maker_timeout_ms
                } else {
                    self.config.default_maker_timeout_ms
                };
                (
                    Submitted::Rests { escalate_at_ms: Some(now_ms + timeout) },
                    service::no_event(),
                )
            },
        }
    }

    /// Takes the venue's acceptance of an order in: it ends the row of refusals and the intent's
    /// cooldown. The instant at which a resting order gives up is counted from here, where it is
    /// meant to and is not counted yet.
    pub fn confirm_live(&mut self, order: &TrackedOrder, now_ms: i64) -> (r: Option<i64>)
        requires
            old(self).wf(),
            i64::MIN <= now_ms + maker_timeout(
                order.maker_timeout_ms,
                old(self)@.config.default_maker_timeout_ms,
            ) <= i64::MAX,
        ensures
            final(self).wf(),
            final(self)@ == (CoreModel {
                consecutive_venue_rejects: 0,
                place_cooldowns: old(self)@.place_cooldowns.remove(order@.internal_key),
                ..old(self)@
            }),
            r == if order.mode == FillPolicy::MakerThenTaker && order.escalate_at_ms is None {
                Some(
                    (now_ms + maker_timeout(
                        order.maker_timeout_ms,
                        old(self)@.config.default_maker_timeout_ms,
                    )) as i64,
                )
            } else {
                None
            },
    {
        let ghost m = self@;
        self.consecutive_venue_rejects = 0;
        let _ = self.place_cooldowns.remove(order.internal_key.as_str());
        assert(self@.place_cooldowns =~= m.place_cooldowns.remove(order@.internal_key));
        if order.mode == FillPolicy::MakerThenTaker && order.escalate_at_ms.is_none() {
            let timeout: i64 = if order.maker_timeout_ms > 0 {
                order.maker_timeout_ms
            } else {
                self.config.default_maker_timeout_ms
            };
            return Some(now_ms + timeout);
        }
        None
    }
}

/// An acceptance by the venue frees the intent that it serves.
pub proof fn law_an_acceptance_frees_its_intent(m: CoreModel, internal_key: Seq<char>, now_ms: i64)
    ensures
        !rejections::blocked(m.place_cooldowns.remove(internal_key), internal_key, now_ms),
{
}

} // verus!
