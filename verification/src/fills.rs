//! Fills: what they do to the cash, to the positions, and to what is known of the strategies.
//!
//! A fill that opens or closes a position is booked at once. Where the venue takes a fill back
//! that had closed a position, what the close had booked is taken back too.
use vstd::prelude::*;
use vstd::string::*;

use crate::decimal;
use crate::decimal::Decimal;
use crate::exit_reasons;
use crate::exits;
use crate::fees;
use crate::fees::FeeSchedule;
use crate::lifecycle;
use crate::lifecycle::DailyTrip;
use crate::model;
use crate::model::{
    CoreError, CoreErrorCode, CoreErrorModel, Event, EventModel, ExitReason, OpenPosition,
    OrderRole, OrderStatus, Side, SignalDirection, TrackedOrder, TrackedOrderModel,
};
use crate::service;
use crate::service::{
    ClosedPosition, CloseCredential, CloseCredentialModel, Core, CoreModel, StrategyAccounting,
    StrategyAccountingModel,
};
use crate::text;

verus! {

/// What one report of a fill adds to an order, or takes back where it is below zero.
#[derive(Debug)]
pub struct FillDelta {
    pub order_id: String,
    pub trade_id: String,
    pub token_id: String,
    pub condition_id: String,
    pub side: Side,
    pub price: Decimal,
    /// The order's own limit.
    pub limit_price: Decimal,
    pub delta: Decimal,
    /// What the fill did, whatever the order was meant to do.
    pub role: OrderRole,
    pub strategy: String,
    pub asset: String,
    pub direction: String,
    pub round_slot: i64,
}

/// What a fill says.
pub struct FillDeltaModel {
    pub order_id: Seq<char>,
    pub trade_id: Seq<char>,
    pub token_id: Seq<char>,
    pub condition_id: Seq<char>,
    pub side: Side,
    pub price: Decimal,
    pub limit_price: Decimal,
    pub delta: Decimal,
    pub role: OrderRole,
    pub strategy: Seq<char>,
    pub asset: Seq<char>,
    pub direction: Seq<char>,
    pub round_slot: i64,
}

impl View for FillDelta {
    type V = FillDeltaModel;

    open spec fn view(&self) -> FillDeltaModel {
        FillDeltaModel {
            order_id: self.order_id@,
            trade_id: self.trade_id@,
            token_id: self.token_id@,
            condition_id: self.condition_id@,
            side: self.side,
            price: self.price,
            limit_price: self.limit_price,
            delta: self.delta,
            role: self.role,
            strategy: self.strategy@,
            asset: self.asset@,
            direction: self.direction@,
            round_slot: self.round_slot,
        }
    }
}

impl Clone for FillDelta {
    fn clone(&self) -> (r: Self)
        ensures
            r@ == self@,
    {
        FillDelta {
            order_id: self.order_id.clone(),
            trade_id: self.trade_id.clone(),
            token_id: self.token_id.clone(),
            condition_id: self.condition_id.clone(),
            side: self.side,
            price: self.price,
            limit_price: self.limit_price,
            delta: self.delta,
            role: self.role,
            strategy: self.strategy.clone(),
            asset: self.asset.clone(),
            direction: self.direction.clone(),
            round_slot: self.round_slot,
        }
    }
}

/// What a fill does to the cash.
#[derive(Debug)]
pub enum CashMove {
    /// Cash is paid for shares, and what was reserved for them is released.
    Buy { order_id: String, paid: Decimal, released: Decimal },
    /// A fee is paid.
    Fee { fee_usd: Decimal },
    /// Cash is received for shares, a fee taken off.
    Sell { received: Decimal, fee_usd: Decimal },
}

/// What a move of cash says.
pub enum CashMoveModel {
    Buy { order_id: Seq<char>, paid: Decimal, released: Decimal },
    Fee { fee_usd: Decimal },
    Sell { received: Decimal, fee_usd: Decimal },
}

impl View for CashMove {
    type V = CashMoveModel;

    open spec fn view(&self) -> CashMoveModel {
        match self {
            CashMove::Buy { order_id, paid, released } => CashMoveModel::Buy {
                order_id: order_id@,
                paid: *paid,
                released: *released,
            },
            CashMove::Fee { fee_usd } => CashMoveModel::Fee { fee_usd: *fee_usd },
            CashMove::Sell { received, fee_usd } => CashMoveModel::Sell {
                received: *received,
                fee_usd: *fee_usd,
            },
        }
    }
}

impl Clone for CashMove {
    fn clone(&self) -> (r: Self)
        ensures
            r@ == self@,
    {
        match self {
            CashMove::Buy { order_id, paid, released } => CashMove::Buy {
                order_id: order_id.clone(),
                paid: *paid,
                released: *released,
            },
            CashMove::Fee { fee_usd } => CashMove::Fee { fee_usd: *fee_usd },
            CashMove::Sell { received, fee_usd } => CashMove::Sell {
                received: *received,
                fee_usd: *fee_usd,
            },
        }
    }
}

/// A position to open.
#[derive(Debug)]
pub struct OpenParams {
    pub strategy: String,
    pub asset: String,
    pub direction: SignalDirection,
    pub token_id: String,
    pub condition_id: String,
    pub entry_price: Decimal,
    pub expires_at_ms: i64,
    pub was_maker: bool,
    pub target_exit_price: Option<Decimal>,
}

/// What a position to open says.
pub struct OpenParamsModel {
    pub strategy: Seq<char>,
    pub asset: Seq<char>,
    pub direction: SignalDirection,
    pub token_id: Seq<char>,
    pub condition_id: Seq<char>,
    pub entry_price: Decimal,
    pub expires_at_ms: i64,
    pub was_maker: bool,
    pub target_exit_price: Option<Decimal>,
}

impl View for OpenParams {
    type V = OpenParamsModel;

    open spec fn view(&self) -> OpenParamsModel {
        OpenParamsModel {
            strategy: self.strategy@,
            asset: self.asset@,
            direction: self.direction,
            token_id: self.token_id@,
            condition_id: self.condition_id@,
            entry_price: self.entry_price,
            expires_at_ms: self.expires_at_ms,
            was_maker: self.was_maker,
            target_exit_price: self.target_exit_price,
        }
    }
}

impl Clone for OpenParams {
    fn clone(&self) -> (r: Self)
        ensures
            r@ == self@,
    {
        OpenParams {
            strategy: self.strategy.clone(),
            asset: self.asset.clone(),
            direction: self.direction,
            token_id: self.token_id.clone(),
            condition_id: self.condition_id.clone(),
            entry_price: self.entry_price,
            expires_at_ms: self.expires_at_ms,
            was_maker: self.was_maker,
            target_exit_price: self.target_exit_price,
        }
    }
}

/// A trade that the venue reports of an order that the kernel never placed.
#[derive(Debug)]
pub struct VenueTrade {
    pub token_id: String,
    pub side: Side,
    pub price: Decimal,
    pub size: Decimal,
    pub maker: Option<bool>,
    pub ts_ms: i64,
}

/// What a venue's trade says.
pub struct VenueTradeModel {
    pub token_id: Seq<char>,
    pub side: Side,
    pub price: Decimal,
    pub size: Decimal,
    pub maker: Option<bool>,
    pub ts_ms: i64,
}

impl View for VenueTrade {
    type V = VenueTradeModel;

    open spec fn view(&self) -> VenueTradeModel {
        VenueTradeModel {
            token_id: self.token_id@,
            side: self.side,
            price: self.price,
            size: self.size,
            maker: self.maker,
            ts_ms: self.ts_ms,
        }
    }
}

impl Clone for VenueTrade {
    fn clone(&self) -> (r: Self)
        ensures
            r@ == self@,
    {
        VenueTrade {
            token_id: self.token_id.clone(),
            side: self.side,
            price: self.price,
            size: self.size,
            maker: self.maker,
            ts_ms: self.ts_ms,
        }
    }
}

/// A fill of an order that had already ended, or that reports more than the order could hold.
#[derive(Debug)]
pub struct LateFill {
    pub order_id: String,
    pub trade_id: String,
    /// How the order had ended, where it had.
    pub absorbed_by: Option<OrderStatus>,
    pub size: Decimal,
    pub cumulative: Decimal,
    pub order_size: Decimal,
    pub reported_cumulative: Decimal,
    pub overfill: bool,
}

/// What a late fill says.
pub struct LateFillModel {
    pub order_id: Seq<char>,
    pub trade_id: Seq<char>,
    pub absorbed_by: Option<OrderStatus>,
    pub size: Decimal,
    pub cumulative: Decimal,
    pub order_size: Decimal,
    pub reported_cumulative: Decimal,
    pub overfill: bool,
}

impl View for LateFill {
    type V = LateFillModel;

    open spec fn view(&self) -> LateFillModel {
        LateFillModel {
            order_id: self.order_id@,
            trade_id: self.trade_id@,
            absorbed_by: self.absorbed_by,
            size: self.size,
            cumulative: self.cumulative,
            order_size: self.order_size,
            reported_cumulative: self.reported_cumulative,
            overfill: self.overfill,
        }
    }
}

impl Clone for LateFill {
    fn clone(&self) -> (r: Self)
        ensures
            r@ == self@,
    {
        LateFill {
            order_id: self.order_id.clone(),
            trade_id: self.trade_id.clone(),
            absorbed_by: self.absorbed_by,
            size: self.size,
            cumulative: self.cumulative,
            order_size: self.order_size,
            reported_cumulative: self.reported_cumulative,
            overfill: self.overfill,
        }
    }
}

// ---------------------------------------------------------------------------------------------
// Cash

/// A fill rested on the book and was hit.
pub open spec fn is_maker(role: OrderRole) -> bool {
    role == OrderRole::Maker
}

/// The notional of a fill.
pub open spec fn fill_notional(d: FillDeltaModel) -> Decimal {
    d.price.spec_times(d.delta)
}

/// The cash that a fill which is taken back gives back.
pub open spec fn refund(d: FillDeltaModel) -> Decimal {
    d.price.spec_neg().spec_times(d.delta)
}

/// What a fill costs: a taker pays the percentage that the schedule states, a maker nothing, and a
/// fill that is taken back costs nothing either.
pub open spec fn fill_fee(d: FillDeltaModel, fee_pct: Decimal) -> Decimal {
    if d.delta@ > 0 {
        fees::fee_of(is_maker(d.role), fee_pct, fill_notional(d))
    } else {
        Decimal::spec_zero()
    }
}

/// What a fill does to the cash. A buy pays the price that it got and releases what its limit had
/// reserved; the two differ where the price was better than the limit.
pub open spec fn cash_moves(d: FillDeltaModel, fee_pct: Decimal) -> Seq<CashMoveModel> {
    if d.delta@ > 0 {
        match d.side {
            Side::Buy => seq![
                CashMoveModel::Buy {
                    order_id: d.order_id,
                    paid: fill_notional(d),
                    released: d.limit_price.spec_times(d.delta),
                },
                CashMoveModel::Fee { fee_usd: fill_fee(d, fee_pct) },
            ],
            Side::Sell => seq![
                CashMoveModel::Sell {
                    received: fill_notional(d),
                    fee_usd: fill_fee(d, fee_pct),
                },
            ],
        }
    } else {
        match d.side {
            Side::Buy => seq![
                CashMoveModel::Sell { received: refund(d), fee_usd: Decimal::spec_zero() },
            ],
            Side::Sell => seq![
                CashMoveModel::Buy {
                    order_id: d.order_id,
                    paid: refund(d),
                    released: Decimal::spec_zero(),
                },
            ],
        }
    }
}

/// What is computed of a fill's cash stays in range.
pub open spec fn cash_ok(d: FillDeltaModel, fee_pct: Decimal) -> bool {
    if d.delta@ > 0 {
        &&& d.price.times_ok(d.delta)
        &&& d.limit_price.times_ok(d.delta)
        &&& fees::pct_of_ok(
            if is_maker(d.role) {
                Decimal::spec_zero()
            } else {
                fee_pct
            },
            fill_notional(d),
        )
    } else {
        d.price.spec_neg().times_ok(d.delta)
    }
}

/// What a list of moves says.
pub open spec fn moves_model(moves: Seq<CashMove>) -> Seq<CashMoveModel> {
    moves.map_values(|c: CashMove| c@)
}

/// The cash of a fill: the fee, and the moves that book it.
#[derive(Debug)]
pub struct FillCash {
    pub fee_usd: Decimal,
    pub moves: Vec<CashMove>,
}

/// What an order still has reserved after a fill: what is left of a working order at its limit,
/// and nothing once it has ended.
pub open spec fn reservation(order: Option<TrackedOrderModel>, remaining: Decimal) -> Decimal {
    match order {
        Some(o) => if o.live {
            o.price.spec_times(remaining)
        } else {
            Decimal::spec_zero()
        },
        None => Decimal::spec_zero(),
    }
}

/// Computes what an order still has reserved after a fill.
pub fn reservation_target(order: Option<&TrackedOrder>, remaining: Decimal) -> (r: Decimal)
    requires
        order matches Some(o) ==> (o.live ==> o.price.times_ok(remaining)),
    ensures
        r == reservation(
            match order {
                Some(o) => Some(o@),
                None => None,
            },
            remaining,
        ),
        (order is None || !order->0.live) ==> r@ == 0,
{
    match order {
        Some(o) => {
            if o.live {
                o.price.times(remaining)
            } else {
                Decimal::zero()
            }
        },
        None => Decimal::zero(),
    }
}

/// The cash that a fill moves, in the kernel's favour, in units; the fee counts against it.
pub open spec fn cash_value(c: CashMoveModel) -> int {
    match c {
        CashMoveModel::Buy { order_id, paid, released } => -paid@,
        CashMoveModel::Fee { fee_usd } => -fee_usd@,
        CashMoveModel::Sell { received, fee_usd } => received@ - fee_usd@,
    }
}

impl Core {
    /// The cash of a fill. A schedule other than the shipped one may only be charged in a replay:
    /// a fee that was never owed would be in the books for good.
    pub fn fill_cash(
        &self,
        d: &FillDelta,
        schedule: &FeeSchedule,
        shipped: &FeeSchedule,
        fee_pct: Decimal,
    ) -> (r: FillCash)
        requires
            cash_ok(d@, fee_pct),
            d.delta@ > 0 && !is_maker(d.role) ==> fees::chargeable(
                self@.config.fee_schedule_replay,
                *schedule,
                *shipped,
            ),
        ensures
            r.fee_usd == fill_fee(d@, fee_pct),
            moves_model(r.moves@) == cash_moves(d@, fee_pct),
            is_maker(d.role) || d.delta@ <= 0 ==> r.fee_usd@ == 0,
            d.delta@ > 0 && d.price.times_exact(d.delta) ==> fill_notional(d@)@
                * decimal::one_unit() == d.price@ * d.delta@,
            d.delta@ <= 0 && d.price.spec_neg().times_exact(d.delta) ==> refund(d@)@
                * decimal::one_unit() == -(d.price@ * d.delta@),
    {
        let mut moves: Vec<CashMove> = Vec::new();
        if d.delta.is_positive() {
            let notional = d.price.times(d.delta);
            let pct = if d.role == OrderRole::Maker {
                Decimal::zero()
            } else {
                fee_pct
            };
            let fee_usd = fees::percent_of(pct, notional);
            match d.side {
                Side::Buy => {
                    moves.push(
                        CashMove::Buy {
                            order_id: d.order_id.clone(),
                            paid: notional,
                            released: d.limit_price.times(d.delta),
                        },
                    );
                    moves.push(CashMove::Fee { fee_usd });
                },
                Side::Sell => {
                    moves.push(CashMove::Sell { received: notional, fee_usd });
                },
            }
            assert(moves_model(moves@) =~= cash_moves(d@, fee_pct));
            FillCash { fee_usd, moves }
        } else {
            let minus_price = d.price.neg();
            let back = minus_price.times(d.delta);
            proof {
                assert((-d.price@) * d.delta@ == -(d.price@ * d.delta@)) by (nonlinear_arith);
            }
            match d.side {
                Side::Buy => {
                    moves.push(CashMove::Sell { received: back, fee_usd: Decimal::zero() });
                },
                Side::Sell => {
                    moves.push(
                        CashMove::Buy {
                            order_id: d.order_id.clone(),
                            paid: back,
                            released: Decimal::zero(),
                        },
                    );
                },
            }
            assert(moves_model(moves@) =~= cash_moves(d@, fee_pct));
            FillCash { fee_usd: Decimal::zero(), moves }
        }
    }
}

/// What a fill that is taken back gives back is what the fill had moved, the fee apart: the fee
/// stays paid. The two fills are the same but for the sign, and nothing is rounded.
pub proof fn law_a_rollback_gives_the_cash_back(
    d: FillDeltaModel,
    back: FillDeltaModel,
    fee_pct: Decimal,
)
    requires
        d.delta@ > 0,
        back.delta@ == -d.delta@,
        back.price@ == d.price@,
        back.side == d.side,
        fill_notional(d)@ * decimal::one_unit() == d.price@ * d.delta@,
        refund(back)@ * decimal::one_unit() == -(back.price@ * back.delta@),
    ensures
        cash_value(cash_moves(d, fee_pct)[0]) + cash_value(cash_moves(back, fee_pct)[0]) == if d.side
            == Side::Buy {
            0
        } else {
            -fill_fee(d, fee_pct)@
        },
{
    decimal::lemma_zero();
    assert(-(back.price@ * back.delta@) == d.price@ * d.delta@) by (nonlinear_arith)
        requires
            back.delta@ == -d.delta@,
            back.price@ == d.price@,
    ;
    let n = fill_notional(d)@;
    let b = refund(back)@;
    let u = decimal::one_unit();
    assert(n == b) by (nonlinear_arith)
        requires
            n * u == b * u,
            u > 0,
    ;
}

/// A fill, and the percentage that the schedule states at its price.
pub struct PricedFill {
    pub delta: FillDeltaModel,
    pub fee_pct: Decimal,
}

/// The cash that a list of moves brings in all.
pub open spec fn moves_value(moves: Seq<CashMoveModel>) -> int
    decreases moves.len(),
{
    if moves.len() == 0 {
        0
    } else {
        moves_value(moves.drop_last()) + cash_value(moves.last())
    }
}

/// The cash that a list of fills brings in all.
pub open spec fn cash_of(fills: Seq<PricedFill>) -> int
    decreases fills.len(),
{
    if fills.len() == 0 {
        0
    } else {
        cash_of(fills.drop_last()) + moves_value(
            cash_moves(fills.last().delta, fills.last().fee_pct),
        )
    }
}

/// What the fills on one side come to: the notional of each, less what was taken back.
pub open spec fn turned_over(fills: Seq<PricedFill>, side: Side) -> int
    decreases fills.len(),
{
    if fills.len() == 0 {
        0
    } else {
        let d = fills.last().delta;
        turned_over(fills.drop_last(), side) + if d.side != side {
            0
        } else if d.delta@ > 0 {
            fill_notional(d)@
        } else {
            -refund(d)@
        }
    }
}

/// The fees that a list of fills costs.
pub open spec fn fees_paid(fills: Seq<PricedFill>) -> int
    decreases fills.len(),
{
    if fills.len() == 0 {
        0
    } else {
        fees_paid(fills.drop_last()) + fill_fee(fills.last().delta, fills.last().fee_pct)@
    }
}

/// Over any run of fills, makers and takers, whole and in part, taken back or not, the cash moves by
/// what the sells brought, less what the buys cost, less the fees; and each fill is charged once.
pub proof fn law_fills_move_proceeds_less_cost_less_fees(fills: Seq<PricedFill>)
    ensures
        cash_of(fills) == turned_over(fills, Side::Sell) - turned_over(fills, Side::Buy)
            - fees_paid(fills),
    decreases fills.len(),
{
    if fills.len() > 0 {
        law_fills_move_proceeds_less_cost_less_fees(fills.drop_last());
        decimal::lemma_zero();
        let moves = cash_moves(fills.last().delta, fills.last().fee_pct);
        assert(moves.len() == 1 || moves.len() == 2);
        assert(moves.drop_last().len() == moves.len() - 1);
        if moves.len() == 2 {
            assert(moves.drop_last().drop_last().len() == 0);
            assert(moves.drop_last().last() == moves[0]);
        }
        reveal_with_fuel(moves_value, 3);
    }
}

/// A fill is worth its price times its size, where the product needs no rounding, and so is what is
/// given back of one; a maker and a fill that is taken back are charged nothing.
pub proof fn law_a_fill_is_worth_its_price_times_its_size(d: FillDeltaModel, fee_pct: Decimal)
    requires
        d.price.well_formed(),
        d.delta.well_formed(),
        d.price.times_plain(d.delta),
        d.price.spec_neg().times_plain(d.delta),
    ensures
        fill_notional(d)@ * decimal::one_unit() == d.price@ * d.delta@,
        refund(d)@ * decimal::one_unit() == -(d.price@ * d.delta@),
        is_maker(d.role) || d.delta@ <= 0 ==> fill_fee(d, fee_pct)@ == 0,
{
    decimal::lemma_times_plain(d.price, d.delta);
    decimal::lemma_neg(d.price);
    decimal::lemma_times_plain(d.price.spec_neg(), d.delta);
    assert((-d.price@) * d.delta@ == -(d.price@ * d.delta@)) by (nonlinear_arith);
    fees::lemma_no_percent(fill_notional(d));
    decimal::lemma_zero();
}

// ---------------------------------------------------------------------------------------------
// Positions

/// Where the shares of a buy go.
#[derive(Debug)]
pub enum EntryTarget {
    /// Into a position that is open.
    Held { position_id: String },
    /// Into a position to open.
    New { params: OpenParams },
}

/// The end of the round that a position opened in: of its slot where it has one, and else a round
/// from now.
pub open spec fn round_end(round_slot: i64, duration_sec: i64, now_ms: i64) -> int {
    if round_slot > 0 {
        (round_slot + 1) * duration_sec * 1000
    } else {
        now_ms + duration_sec * 1000
    }
}

/// The end of the round stays in range, and so does what leads to it.
pub open spec fn round_end_ok(round_slot: i64, duration_sec: i64, now_ms: i64) -> bool {
    &&& i64::MIN <= round_end(round_slot, duration_sec, now_ms) <= i64::MAX
    &&& round_slot < i64::MAX
    &&& if round_slot > 0 {
        i64::MIN <= (round_slot + 1) * duration_sec <= i64::MAX
    } else {
        i64::MIN <= duration_sec * 1000 <= i64::MAX
    }
}

/// The position that a buy opens.
pub open spec fn opened_by(d: FillDeltaModel, duration_sec: i64, now_ms: i64) -> OpenParamsModel {
    OpenParamsModel {
        strategy: d.strategy,
        asset: d.asset,
        direction: exits::direction_named(d.direction),
        token_id: d.token_id,
        condition_id: d.condition_id,
        entry_price: d.price,
        expires_at_ms: round_end(d.round_slot, duration_sec, now_ms) as i64,
        was_maker: is_maker(d.role),
        target_exit_price: None,
    }
}

/// The refusal to take back an exit that nothing is open for.
pub open spec fn nothing_to_reverse(d: FillDeltaModel) -> CoreErrorModel {
    model::spec_error(
        CoreErrorCode::Internal,
        "exit rollback "@ + d.order_id + " for token "@ + d.token_id
            + " has no open position to reverse"@,
    )
}

/// What an exit fill left of a position.
#[derive(Clone, Copy, Debug)]
pub struct ExitLeft {
    pub shares: Decimal,
    /// What of it can be sold.
    pub sellable: Decimal,
}

/// What comes after an exit fill.
#[derive(Debug)]
pub enum AfterExit {
    Nothing,
    /// The positions changed and are written down.
    Saved,
    /// The position is done and closes.
    Closes { reason: ExitReason, was_maker: bool },
    /// The fill had closed the position, and what that booked is taken back.
    Unwinds { credential: CloseCredential },
    /// There is nothing to take the fill back from.
    Fails { error: CoreError },
}

/// What comes after an exit fill.
pub enum AfterExitModel {
    Nothing,
    Saved,
    Closes { reason: ExitReason, was_maker: bool },
    Unwinds { credential: CloseCredentialModel },
    Fails { error: CoreErrorModel },
}

impl View for AfterExit {
    type V = AfterExitModel;

    open spec fn view(&self) -> AfterExitModel {
        match self {
            AfterExit::Nothing => AfterExitModel::Nothing,
            AfterExit::Saved => AfterExitModel::Saved,
            AfterExit::Closes { reason, was_maker } => AfterExitModel::Closes {
                reason: *reason,
                was_maker: *was_maker,
            },
            AfterExit::Unwinds { credential } => AfterExitModel::Unwinds {
                credential: credential@,
            },
            AfterExit::Fails { error } => AfterExitModel::Fails { error: error@ },
        }
    }
}

/// The reason that a close is recorded with: the one that it was submitted with, or that it was
/// made by hand.
pub open spec fn close_reason(m: CoreModel, token: Seq<char>) -> ExitReason {
    match exit_reasons::reason_of(m.exit_reasons.entries, token) {
        Some(r) => r,
        None => ExitReason::Manual,
    }
}

/// A position is done: nothing of it is left, or nothing that could be sold.
pub open spec fn is_done(left: ExitLeft) -> bool {
    left.shares@ <= 0 || left.sellable@ == 0
}

/// What comes after an exit fill of a position that is open, by what is left of it.
pub open spec fn after_exit_of(m: CoreModel, d: FillDeltaModel, left: Option<ExitLeft>) -> AfterExitModel {
    match left {
        None => if d.delta@ < 0 {
            AfterExitModel::Fails { error: nothing_to_reverse(d) }
        } else {
            AfterExitModel::Nothing
        },
        Some(l) => if is_done(l) {
            AfterExitModel::Closes {
                reason: close_reason(m, d.token_id),
                was_maker: is_maker(d.role),
            }
        } else {
            AfterExitModel::Saved
        },
    }
}

/// The place of the oldest credential of a trade.
pub open spec fn credential_of(creds: Seq<CloseCredentialModel>, trade_id: Seq<char>) -> Option<int>
    decreases creds.len(),
{
    if creds.len() == 0 {
        None
    } else {
        match credential_of(creds.drop_last(), trade_id) {
            Some(i) => Some(i),
            None => if creds.last().trade_id == trade_id {
                Some(creds.len() - 1)
            } else {
                None
            },
        }
    }
}

/// A credential that is found is the trade's, and none before it is.
pub proof fn lemma_credential_of(creds: Seq<CloseCredentialModel>, trade_id: Seq<char>)
    ensures
        match credential_of(creds, trade_id) {
            Some(i) => 0 <= i < creds.len() && creds[i].trade_id == trade_id && forall|j: int|
                0 <= j < i ==> (#[trigger] creds[j]).trade_id != trade_id,
            None => forall|j: int| 0 <= j < creds.len() ==> (#[trigger] creds[j]).trade_id != trade_id,
        },
    decreases creds.len(),
{
    if creds.len() > 0 {
        let front = creds.drop_last();
        lemma_credential_of(front, trade_id);
        assert forall|j: int| 0 <= j < front.len() implies #[trigger] creds[j] == front[j] by {}
    }
}

/// What comes after an exit fill of a token without a position.
pub open spec fn after_stray_exit(m: CoreModel, d: FillDeltaModel) -> AfterExitModel {
    if d.delta@ < 0 {
        match credential_of(m.close_credentials, d.trade_id) {
            Some(i) => AfterExitModel::Unwinds { credential: m.close_credentials[i] },
            None => AfterExitModel::Fails { error: nothing_to_reverse(d) },
        }
    } else {
        AfterExitModel::Nothing
    }
}

/// A kernel after an exit fill of a token without a position: a credential is used once.
pub open spec fn stray_exit_taken(m: CoreModel, d: FillDeltaModel) -> CoreModel {
    if d.delta@ < 0 && credential_of(m.close_credentials, d.trade_id) is Some {
        CoreModel {
            close_credentials: m.close_credentials.remove(
                credential_of(m.close_credentials, d.trade_id)->0,
            ),
            ..m
        }
    } else {
        m
    }
}

/// The credentials with one more: a trade without a name has none, and the oldest gives way where
/// there are too many.
pub open spec fn credential_filed(
    creds: Seq<CloseCredentialModel>,
    cred: CloseCredentialModel,
) -> Seq<CloseCredentialModel> {
    if cred.trade_id.len() == 0 {
        creds
    } else if creds.len() < service::CLOSE_CREDENTIALS_MAX {
        creds.push(cred)
    } else {
        creds.skip(1).push(cred)
    }
}

impl Core {
    /// Where the shares of a buy go: into the first position on its token, or into a new one.
    pub fn entry_target(&self, d: &FillDelta, positions: &Vec<OpenPosition>, now_ms: i64) -> (r:
        EntryTarget)
        requires
            exits::position_on(positions@, d@.token_id) is None ==> round_end_ok(
                d.round_slot,
                self@.config.round_duration_sec,
                now_ms,
            ),
        ensures
            match r {
                EntryTarget::Held { position_id } => {
                    &&& exits::position_on(positions@, d@.token_id) matches Some(i)
                    &&& position_id@ == positions@[i].id@
                },
                EntryTarget::New { params } => {
                    &&& exits::position_on(positions@, d@.token_id) is None
                    &&& params@ == opened_by(d@, self@.config.round_duration_sec, now_ms)
                },
            },
    {
        match exits::find_on(positions, d.token_id.as_str()) {
            Some(i) => EntryTarget::Held { position_id: positions[i].id.clone() },
            None => {
                let dur: i64 = self.config.round_duration_sec;
                let expires_at_ms: i64 = if d.round_slot > 0 {
                    (d.round_slot + 1) * dur * 1000
                } else {
                    now_ms + dur * 1000
                };
                EntryTarget::New {
                    params: OpenParams {
                        strategy: d.strategy.clone(),
                        asset: d.asset.clone(),
                        direction: exits::parse_direction(d.direction.as_str()),
                        token_id: d.token_id.clone(),
                        condition_id: d.condition_id.clone(),
                        entry_price: d.price,
                        expires_at_ms,
                        was_maker: d.role == OrderRole::Maker,
                        target_exit_price: None,
                    },
                }
            },
        }
    }

    /// What comes after an exit fill of an open position, by what the position book says is left.
    /// A remainder that cannot be sold closes the position too: it would stay for good. The reason
    /// that the close was submitted with is used up.
    pub fn after_exit_fill(&mut self, d: &FillDelta, left: Option<ExitLeft>) -> (r: AfterExit)
        requires
            old(self).wf(),
        ensures
            final(self).wf(),
            r@ == after_exit_of(old(self)@, d@, left),
            final(self)@ == if r is Closes {
                (CoreModel {
                    exit_reasons: exit_reasons::clear_step(
                        old(self)@.exit_reasons,
                        d@.token_id,
                    ),
                    ..old(self)@
                })
            } else {
                old(self)@
            },
    {
        match left {
            None => {
                if d.delta.is_negative() {
                    AfterExit::Fails { error: reverse_error(d) }
                } else {
                    AfterExit::Nothing
                }
            },
            Some(l) => {
                if !l.shares.is_positive() || l.sellable == Decimal::zero() {
                    let reason = match self.exit_reasons.take_exit_reason(d.token_id.as_str()) {
                        Some(r) => r,
                        None => ExitReason::Manual,
                    };
                    AfterExit::Closes { reason, was_maker: d.role == OrderRole::Maker }
                } else {
                    AfterExit::Saved
                }
            },
        }
    }

    /// What comes after an exit fill of a token without a position. A fill that is taken back may
    /// have closed the position: then what it booked is taken back too.
    pub fn after_stray_exit_fill(&mut self, d: &FillDelta) -> (r: AfterExit)
        requires
            old(self).wf(),
        ensures
            final(self).wf(),
            r@ == after_stray_exit(old(self)@, d@),
            final(self)@ == stray_exit_taken(old(self)@, d@),
    {
        if !d.delta.is_negative() {
            return AfterExit::Nothing;
        }
        let ghost creds = self@.close_credentials;
        proof {
            lemma_credential_of(creds, d@.trade_id);
        }
        let n: usize = self.close_credentials.len();
        let mut i: usize = 0;
        while i < n && !text::same_text(
            self.close_credentials[i].trade_id.as_str(),
            d.trade_id.as_str(),
        )
            invariant
                i <= n,
                n == self.close_credentials@.len(),
                creds == self.close_credentials@.map_values(|v: CloseCredential| v@),
                forall|j: int| 0 <= j < i ==> (#[trigger] creds[j]).trade_id != d@.trade_id,
            decreases n - i,
        {
            assert(creds[i as int] == self.close_credentials@[i as int]@);
            i = i + 1;
        }
        if i < n {
            assert(creds[i as int] == self.close_credentials@[i as int]@);
            let credential = self.close_credentials.remove(i);
            assert(self.close_credentials@.map_values(|v: CloseCredential| v@) =~= creds.remove(
                i as int,
            ));
            return AfterExit::Unwinds { credential };
        }
        AfterExit::Fails { error: reverse_error(d) }
    }

    /// Files what a close by a fill changed, under the fill's trade.
    pub fn push_close_credential(&mut self, credential: CloseCredential)
        requires
            old(self).wf(),
        ensures
            final(self).wf(),
            final(self)@ == (CoreModel {
                close_credentials: credential_filed(old(self)@.close_credentials, credential@),
                ..old(self)@
            }),
    {
        let ghost creds = self@.close_credentials;
        if credential.trade_id.as_str().unicode_len() == 0 {
            return ;
        }
        if self.close_credentials.len() >= service::CLOSE_CREDENTIALS_MAX {
            let _ = self.close_credentials.remove(0);
            assert(self.close_credentials@.map_values(|v: CloseCredential| v@) =~= creds.skip(1));
        }
        let ghost before = self.close_credentials@.map_values(|v: CloseCredential| v@);
        self.close_credentials.push(credential);
        assert(self.close_credentials@.map_values(|v: CloseCredential| v@) =~= before.push(
            credential@,
        ));
    }
}

/// Where a fill goes.
#[derive(Debug)]
pub enum Projection {
    /// Its shares go into a position.
    Enters { target: EntryTarget },
    /// It sells from an open position, which is kept as it was before the fill.
    Sells { from: OpenPosition },
    /// It sells a token without a position.
    Stray { after: AfterExit },
}

/// A fill goes where it belongs: a buy into the first position on its token or into a new one, a
/// sell out of the first position on its token, or nowhere.
pub open spec fn projects(
    r: Projection,
    m: CoreModel,
    d: FillDeltaModel,
    positions: Seq<OpenPosition>,
    now_ms: i64,
) -> bool {
    match (d.side, exits::position_on(positions, d.token_id)) {
        (Side::Buy, Some(i)) => {
            &&& r matches Projection::Enters { target: EntryTarget::Held { position_id } }
            &&& position_id@ == positions[i].id@
        },
        (Side::Buy, None) => {
            &&& r matches Projection::Enters { target: EntryTarget::New { params } }
            &&& params@ == opened_by(d, m.config.round_duration_sec, now_ms)
        },
        (Side::Sell, Some(i)) => {
            &&& r matches Projection::Sells { from }
            &&& from == positions[i]
        },
        (Side::Sell, None) => {
            &&& r matches Projection::Stray { after }
            &&& after@ == after_stray_exit(m, d)
        },
    }
}

impl Core {
    /// Finds where a fill goes. A sell of a token without a position that is taken back uses up the
    /// credential of the close that it had made.
    pub fn project_fill_delta(
        &mut self,
        d: &FillDelta,
        positions: &Vec<OpenPosition>,
        now_ms: i64,
    ) -> (r: Projection)
        requires
            old(self).wf(),
            d.side == Side::Buy && exits::position_on(positions@, d@.token_id) is None
                ==> round_end_ok(
                d.round_slot,
                old(self)@.config.round_duration_sec,
                now_ms,
            ),
        ensures
            final(self).wf(),
            projects(r, old(self)@, d@, positions@, now_ms),
            final(self)@ == if r is Stray {
                stray_exit_taken(old(self)@, d@)
            } else {
                old(self)@
            },
    {
        match d.side {
            Side::Buy => Projection::Enters { target: self.entry_target(d, positions, now_ms) },
            Side::Sell => match exits::find_on(positions, d.token_id.as_str()) {
                Some(i) => Projection::Sells { from: positions[i].clone() },
                None => Projection::Stray { after: self.after_stray_exit_fill(d) },
            },
        }
    }
}

fn reverse_error(d: &FillDelta) -> (r: CoreError)
    ensures
        r@ == nothing_to_reverse(d@),
{
    let mut message = text::join("exit rollback ", d.order_id.as_str());
    message.append(" for token ");
    message.append(d.token_id.as_str());
    message.append(" has no open position to reverse");
    CoreError::new(CoreErrorCode::Internal, message)
}

/// A close that was filed under a trade is found when the trade is taken back, as long as no older
/// close was filed under the same name.
pub proof fn law_a_filed_close_can_be_taken_back(
    creds: Seq<CloseCredentialModel>,
    cred: CloseCredentialModel,
)
    requires
        creds.len() <= service::CLOSE_CREDENTIALS_MAX,
        cred.trade_id.len() > 0,
        credential_of(creds, cred.trade_id) is None,
    ensures
        credential_of(credential_filed(creds, cred), cred.trade_id) matches Some(i) ==> (
        credential_filed(creds, cred)[i] == cred),
        credential_of(credential_filed(creds, cred), cred.trade_id) is Some,
        credential_filed(creds, cred).len() <= service::CLOSE_CREDENTIALS_MAX,
{
    let filed = credential_filed(creds, cred);
    lemma_credential_of(creds, cred.trade_id);
    lemma_credential_of(filed, cred.trade_id);
    assert(filed.last() == cred);
    assert forall|j: int| 0 <= j < filed.len() - 1 implies (#[trigger] filed[j]).trade_id
        != cred.trade_id by {
        if creds.len() < service::CLOSE_CREDENTIALS_MAX {
            assert(filed[j] == creds[j]);
        } else {
            assert(filed[j] == creds[j + 1]);
        }
    }
    assert(filed[filed.len() - 1].trade_id == cred.trade_id);
}

// ---------------------------------------------------------------------------------------------
// Closes

/// What one leg of a closed position paid in fees.
pub open spec fn leg_fee(pct: Decimal, price: Decimal, shares: Decimal) -> Decimal {
    pct.spec_over(fees::hundred()).spec_times(price).spec_times(shares)
}

/// What one leg paid stays in range.
pub open spec fn leg_fee_ok(pct: Decimal, price: Decimal, shares: Decimal) -> bool {
    pct.over_ok(fees::hundred()) && pct.spec_over(fees::hundred()).times_ok(price) && pct.spec_over(
        fees::hundred(),
    ).spec_times(price).times_ok(shares)
}

/// What a closed position paid in fees.
pub open spec fn trade_fees(c: ClosedPosition) -> Decimal {
    leg_fee(c.entry_fee_pct, c.entry_price, c.shares).spec_plus(
        leg_fee(c.exit_fee_pct, c.exit_price, c.shares),
    )
}

/// What a closed position paid stays in range.
pub open spec fn trade_fees_ok(c: ClosedPosition) -> bool {
    &&& leg_fee_ok(c.entry_fee_pct, c.entry_price, c.shares)
    &&& leg_fee_ok(c.exit_fee_pct, c.exit_price, c.shares)
    &&& leg_fee(c.entry_fee_pct, c.entry_price, c.shares).plus_ok(
        leg_fee(c.exit_fee_pct, c.exit_price, c.shares),
    )
}

fn leg_fee_of(pct: Decimal, price: Decimal, shares: Decimal) -> (r: Decimal)
    requires
        leg_fee_ok(pct, price, shares),
    ensures
        r == leg_fee(pct, price, shares),
{
    pct.over(fees::one_hundred()).times(price).times(shares)
}

fn trade_fees_of(c: &ClosedPosition) -> (r: Decimal)
    requires
        trade_fees_ok(*c),
    ensures
        r == trade_fees(*c),
{
    leg_fee_of(c.entry_fee_pct, c.entry_price, c.shares).plus(
        leg_fee_of(c.exit_fee_pct, c.exit_price, c.shares),
    )
}

/// The accounting of a strategy after a close.
pub open spec fn with_close(a: StrategyAccountingModel, c: ClosedPosition) -> StrategyAccountingModel {
    StrategyAccountingModel {
        closed_trades: (a.closed_trades + 1) as u64,
        wins: if c.net_pnl_usd@ >= 0 {
            (a.wins + 1) as u64
        } else {
            a.wins
        },
        losses: if c.net_pnl_usd@ >= 0 {
            a.losses
        } else {
            (a.losses + 1) as u64
        },
        fees_usd: a.fees_usd.spec_plus(trade_fees(c)),
        net_pnl_usd: a.net_pnl_usd.spec_plus(c.net_pnl_usd),
        ..a
    }
}

/// One less, and zero where there was none.
pub open spec fn one_less(n: u64) -> u64 {
    if n == 0 {
        0
    } else {
        (n - 1) as u64
    }
}

/// The accounting of a strategy after a close is taken back.
pub open spec fn without_close(a: StrategyAccountingModel, c: ClosedPosition) -> StrategyAccountingModel {
    StrategyAccountingModel {
        closed_trades: one_less(a.closed_trades),
        wins: if c.net_pnl_usd@ >= 0 {
            one_less(a.wins)
        } else {
            a.wins
        },
        losses: if c.net_pnl_usd@ >= 0 {
            a.losses
        } else {
            one_less(a.losses)
        },
        fees_usd: a.fees_usd.spec_minus(trade_fees(c)),
        net_pnl_usd: a.net_pnl_usd.spec_minus(c.net_pnl_usd),
        ..a
    }
}

/// What is counted at a close stays in range.
pub open spec fn close_ok(a: StrategyAccountingModel, c: ClosedPosition) -> bool {
    &&& a.closed_trades < u64::MAX
    &&& a.wins < u64::MAX
    &&& a.losses < u64::MAX
    &&& trade_fees_ok(c)
    &&& a.fees_usd.plus_ok(trade_fees(c))
    &&& a.net_pnl_usd.plus_ok(c.net_pnl_usd)
}

/// What is taken back of a close stays in range.
pub open spec fn unwind_ok(a: StrategyAccountingModel, c: ClosedPosition) -> bool {
    &&& trade_fees_ok(c)
    &&& a.fees_usd.minus_ok(trade_fees(c))
    &&& a.net_pnl_usd.minus_ok(c.net_pnl_usd)
}

/// A kernel that has booked a close: the reason that the close was waiting with is gone, and the
/// strategy's accounting has moved.
pub open spec fn close_booked(m: CoreModel, c: ClosedPosition) -> CoreModel {
    CoreModel {
        exit_reasons: exit_reasons::clear_step(m.exit_reasons, c.token_id@),
        strategy_accounting: m.strategy_accounting.insert(
            c.strategy@,
            with_close(service::accounting_of(m, c.strategy@), c),
        ),
        ..m
    }
}

/// A kernel that has taken a close back.
pub open spec fn close_unwound(m: CoreModel, c: ClosedPosition) -> CoreModel {
    CoreModel {
        strategy_accounting: m.strategy_accounting.insert(
            c.strategy@,
            without_close(service::accounting_of(m, c.strategy@), c),
        ),
        ..m
    }
}

/// What the loss breaker says of a close: that it halts the strategy, and after how many losses.
#[derive(Clone, Copy, Debug)]
pub struct BreakerVerdict {
    pub tripped: bool,
    pub losses: u32,
}

/// What a kernel says of a close: the close, the halt of its strategy where the breaker trips, and
/// the day's loss budget where the close used it up.
pub open spec fn close_events(
    m: CoreModel,
    c: ClosedPosition,
    breaker: BreakerVerdict,
    daily_pnl_usd: Decimal,
    trip: Option<DailyTrip>,
) -> Seq<EventModel> {
    let closed = EventModel::PositionClosed {
        id: c.id@,
        asset: c.asset@,
        direction: exits::direction_text(c.direction),
        reason: c.exit_reason.spec_name(),
        strategy: c.strategy@,
        token_id: c.token_id@,
        condition_id: c.condition_id@,
        net_pnl_usd: c.net_pnl_usd,
        net_pnl_pct: c.net_pnl_pct,
        daily_pnl_usd,
    };
    (if breaker.tripped {
        seq![
            closed,
            EventModel::RiskAlert {
                code: CoreErrorCode::RiskRejected,
                message: "consecutive-loss breaker tripped for strategy "@ + c.strategy@ + ": "@
                    + text::nat_text(breaker.losses as nat) + " losses, halting its new entries "@
                    + text::int_text(m.config.breaker_cooldown_sec as int) + "s"@,
            },
        ]
    } else {
        seq![closed]
    }) + lifecycle::trip_events(m.config, trip)
}

impl Core {
    /// Books a close: the reason that it was waiting with goes, the strategy's accounting moves,
    /// and the close is told, with the day's loss budget where the close used it up. Every close goes
    /// through here, however it came about.
    pub fn on_position_closed(
        &mut self,
        closed: &ClosedPosition,
        breaker: BreakerVerdict,
        daily_pnl_usd: Decimal,
        trip: Option<DailyTrip>,
    ) -> (r: Vec<Event>)
        requires
            old(self).wf(),
            close_ok(service::accounting_of(old(self)@, closed.strategy@), *closed),
        ensures
            final(self).wf(),
            final(self)@ == close_booked(old(self)@, *closed),
            service::events_model(r@) == close_events(
                old(self)@,
                *closed,
                breaker,
                daily_pnl_usd,
                trip,
            ),
            ({
                let a = service::accounting_of(old(self)@, closed.strategy@);
                let b = service::accounting_of(final(self)@, closed.strategy@);
                &&& a.net_pnl_usd.plus_exact(closed.net_pnl_usd) ==> b.net_pnl_usd@
                    == a.net_pnl_usd@ + closed.net_pnl_usd@
                &&& a.fees_usd.plus_exact(trade_fees(*closed)) ==> b.fees_usd@ == a.fees_usd@
                    + trade_fees(*closed)@
            }),
    {
        let ghost m = self@;
        self.exit_reasons.clear_exit_reason(closed.token_id.as_str());
        let mut acc = match self.strategy_accounting.remove(closed.strategy.as_str()) {
            Some(a) => a,
            None => StrategyAccounting::new(),
        };
        acc.closed_trades = acc.closed_trades + 1;
        if closed.net_pnl_usd.is_negative() {
            acc.losses = acc.losses + 1;
        } else {
            acc.wins = acc.wins + 1;
        }
        acc.fees_usd = acc.fees_usd.plus(trade_fees_of(closed));
        acc.net_pnl_usd = acc.net_pnl_usd.plus(closed.net_pnl_usd);
        let ghost after = acc@;
        self.strategy_accounting.insert(closed.strategy.clone(), acc);
        assert(self@.strategy_accounting =~= m.strategy_accounting.insert(closed.strategy@, after));
        let mut out: Vec<Event> = Vec::new();
        out.push(
            Event::PositionClosed {
                id: closed.id.clone(),
                asset: closed.asset.clone(),
                direction: exits::write_direction(closed.direction),
                reason: closed.exit_reason.name().to_owned(),
                strategy: closed.strategy.clone(),
                token_id: closed.token_id.clone(),
                condition_id: closed.condition_id.clone(),
                net_pnl_usd: closed.net_pnl_usd,
                net_pnl_pct: closed.net_pnl_pct,
                daily_pnl_usd,
            },
        );
        if breaker.tripped {
            let mut message = text::join(
                "consecutive-loss breaker tripped for strategy ",
                closed.strategy.as_str(),
            );
            message.append(": ");
            message.append(text::write_u64(breaker.losses as u64).as_str());
            message.append(" losses, halting its new entries ");
            message.append(text::write_i64(self.config.breaker_cooldown_sec).as_str());
            message.append("s");
            out.push(Event::RiskAlert { code: CoreErrorCode::RiskRejected, message });
        }
        let mut told = self.emit_daily_trip(trip);
        proof {
            assert(service::events_model(out@ + told@) =~= service::events_model(out@)
                + service::events_model(told@));
        }
        out.append(&mut told);
        assert(service::events_model(out@) =~= close_events(
            m,
            *closed,
            breaker,
            daily_pnl_usd,
            trip,
        ));
        out
    }

    /// Takes a close back that a fill had made and the venue has taken back: the strategy's
    /// accounting is as if the close had not been.
    pub fn unwind_closed_trade(&mut self, closed: &ClosedPosition)
        requires
            old(self).wf(),
            unwind_ok(service::accounting_of(old(self)@, closed.strategy@), *closed),
        ensures
            final(self).wf(),
            final(self)@ == close_unwound(old(self)@, *closed),
            ({
                let a = service::accounting_of(old(self)@, closed.strategy@);
                let b = service::accounting_of(final(self)@, closed.strategy@);
                &&& a.net_pnl_usd.minus_exact(closed.net_pnl_usd) ==> b.net_pnl_usd@
                    == a.net_pnl_usd@ - closed.net_pnl_usd@
                &&& a.fees_usd.minus_exact(trade_fees(*closed)) ==> b.fees_usd@ == a.fees_usd@
                    - trade_fees(*closed)@
            }),
    {
        let ghost m = self@;
        let mut acc = match self.strategy_accounting.remove(closed.strategy.as_str()) {
            Some(a) => a,
            None => StrategyAccounting::new(),
        };
        if acc.closed_trades > 0 {
            acc.closed_trades = acc.closed_trades - 1;
        }
        if closed.net_pnl_usd.is_negative() {
            if acc.losses > 0 {
                acc.losses = acc.losses - 1;
            }
        } else if acc.wins > 0 {
            acc.wins = acc.wins - 1;
        }
        acc.fees_usd = acc.fees_usd.minus(trade_fees_of(closed));
        acc.net_pnl_usd = acc.net_pnl_usd.minus(closed.net_pnl_usd);
        let ghost after = acc@;
        self.strategy_accounting.insert(closed.strategy.clone(), acc);
        assert(self@.strategy_accounting =~= m.strategy_accounting.insert(closed.strategy@, after));
    }
}

/// Adding an amount and taking it away again needs no rounding.
pub open spec fn comes_back(a: Decimal, b: Decimal) -> bool {
    &&& a.well_formed()
    &&& b.well_formed()
    &&& a.plus_plain(b)
    &&& a.spec_plus(b).minus_plain(b)
}

/// A close that is taken back leaves nothing behind: the trades, the wins and the losses of its
/// strategy are what they were, and so are its fees and its profit where nothing is rounded. Every
/// other strategy's accounting was never touched.
pub proof fn law_an_unwound_close_leaves_nothing_behind(
    m: CoreModel,
    c: ClosedPosition,
    other: Seq<char>,
)
    requires
        close_ok(service::accounting_of(m, c.strategy@), c),
        other != c.strategy@,
    ensures
        ({
            let before = service::accounting_of(m, c.strategy@);
            let after = service::accounting_of(close_unwound(close_booked(m, c), c), c.strategy@);
            &&& after.closed_trades == before.closed_trades
            &&& after.wins == before.wins
            &&& after.losses == before.losses
            &&& after.placed == before.placed
            &&& after.rejected == before.rejected
            &&& after.rejection_causes == before.rejection_causes
            &&& comes_back(before.fees_usd, trade_fees(c)) ==> after.fees_usd@ == before.fees_usd@
            &&& comes_back(before.net_pnl_usd, c.net_pnl_usd) ==> after.net_pnl_usd@
                == before.net_pnl_usd@
        }),
        service::accounting_of(close_unwound(close_booked(m, c), c), other)
            == service::accounting_of(m, other),
{
    let before = service::accounting_of(m, c.strategy@);
    if comes_back(before.fees_usd, trade_fees(c)) {
        decimal::lemma_plus_plain(before.fees_usd, trade_fees(c));
        decimal::lemma_minus_plain(before.fees_usd.spec_plus(trade_fees(c)), trade_fees(c));
    }
    if comes_back(before.net_pnl_usd, c.net_pnl_usd) {
        decimal::lemma_plus_plain(before.net_pnl_usd, c.net_pnl_usd);
        decimal::lemma_minus_plain(before.net_pnl_usd.spec_plus(c.net_pnl_usd), c.net_pnl_usd);
    }
}

/// A day's loss budget that a close uses up is told with that close, and is the last that is said of
/// it.
pub proof fn law_a_used_up_budget_is_told_with_the_close(
    m: CoreModel,
    c: ClosedPosition,
    breaker: BreakerVerdict,
    daily_pnl_usd: Decimal,
    trip: DailyTrip,
)
    ensures
        ({
            let told = close_events(m, c, breaker, daily_pnl_usd, Some(trip));
            &&& told.len() >= 2
            &&& told.first() is PositionClosed
            &&& told.last() == (EventModel::RiskAlert {
                code: CoreErrorCode::RiskRejected,
                message: lifecycle::trip_text(m.config, trip),
            })
            &&& told.drop_last() == close_events(m, c, breaker, daily_pnl_usd, None)
        }),
{
    let told = close_events(m, c, breaker, daily_pnl_usd, Some(trip));
    assert(told.drop_last() =~= close_events(m, c, breaker, daily_pnl_usd, None));
}

/// No reason waits for a token whose position was closed.
pub proof fn law_a_close_retires_its_reason(m: CoreModel, c: ClosedPosition)
    requires
        exit_reasons::reasons_inv(m.exit_reasons),
    ensures
        exit_reasons::reason_of(close_booked(m, c).exit_reasons.entries, c.token_id@) is None,
{
    exit_reasons::law_a_later_position_inherits_no_reason(m.exit_reasons, c.token_id@);
}

/// Every close is either a win or a loss of its strategy.
pub proof fn law_a_close_is_a_win_or_a_loss(m: CoreModel, c: ClosedPosition)
    requires
        close_ok(service::accounting_of(m, c.strategy@), c),
        service::accounting_of(m, c.strategy@).closed_trades == service::accounting_of(
            m,
            c.strategy@,
        ).wins + service::accounting_of(m, c.strategy@).losses,
    ensures
        service::accounting_of(close_booked(m, c), c.strategy@).closed_trades
            == service::accounting_of(close_booked(m, c), c.strategy@).wins
            + service::accounting_of(close_booked(m, c), c.strategy@).losses,
{
}

// ---------------------------------------------------------------------------------------------
// Trades that the kernel did not make

/// A trade was not folded in yet.
pub open spec fn is_fresh(t: VenueTradeModel, watermark_ms: i64) -> bool {
    t.ts_ms > watermark_ms
}

/// The trades that were not folded in yet.
pub open spec fn fresh(trades: Seq<VenueTradeModel>, watermark_ms: i64) -> Seq<VenueTradeModel>
    decreases trades.len(),
{
    if trades.len() == 0 {
        Seq::empty()
    } else {
        let rest = fresh(trades.drop_last(), watermark_ms);
        if is_fresh(trades.last(), watermark_ms) {
            rest.push(trades.last())
        } else {
            rest
        }
    }
}

/// The newest of a mark and some trades.
pub open spec fn newest(trades: Seq<VenueTradeModel>, mark_ms: i64) -> i64
    decreases trades.len(),
{
    if trades.len() == 0 {
        mark_ms
    } else {
        let rest = newest(trades.drop_last(), mark_ms);
        if trades.last().ts_ms > rest {
            trades.last().ts_ms
        } else {
            rest
        }
    }
}

/// What a list of trades says.
pub open spec fn trades_model(trades: Seq<VenueTrade>) -> Seq<VenueTradeModel> {
    trades.map_values(|t: VenueTrade| t@)
}

/// A sell that was made outside the kernel, as it is folded in.
#[derive(Debug)]
pub struct ExternalSell {
    pub position_id: String,
    /// What is sold: no more than the position holds.
    pub size: Decimal,
    /// The cash that it brings, for that size.
    pub notional: Decimal,
    pub fee_usd: Decimal,
    pub role: OrderRole,
}

/// The size that is folded in of a sell made outside the kernel.
pub open spec fn folded_size(t: VenueTradeModel, held: Decimal) -> Decimal {
    t.size.spec_min(held)
}

/// A trade made outside the kernel is folded in: a sell of a token that is held, of something.
pub open spec fn folds_in(t: VenueTradeModel, positions: Seq<OpenPosition>) -> bool {
    t.side == Side::Sell && match exits::position_on(positions, t.token_id) {
        Some(i) => folded_size(t, positions[i].shares)@ > 0,
        None => false,
    }
}

/// Whether a trade made outside the kernel is folded in.
pub fn is_folded_in(t: &VenueTrade, positions: &Vec<OpenPosition>) -> (r: bool)
    ensures
        r == folds_in(t@, positions@),
{
    t.side == Side::Sell && match exits::find_on(positions, t.token_id.as_str()) {
        Some(i) => t.size.min(positions[i].shares).is_positive(),
        None => false,
    }
}

/// How a trade made outside the kernel is folded in: no more of it than is held.
pub open spec fn folded_as(
    x: ExternalSell,
    t: VenueTradeModel,
    positions: Seq<OpenPosition>,
    fee_pct: Decimal,
) -> bool {
    &&& exits::position_on(positions, t.token_id) matches Some(i)
    &&& x.position_id@ == positions[i].id@
    &&& x.size == folded_size(t, positions[i].shares)
    &&& x.size@ <= positions[i].shares@
    &&& x.size@ <= t.size@
    &&& x.notional == t.price.spec_times(x.size)
    &&& x.fee_usd == if t.maker == Some(true) {
        Decimal::spec_zero()
    } else {
        fees::pct_of(fee_pct, x.notional)
    }
    &&& x.role == if t.maker == Some(true) {
        OrderRole::Maker
    } else {
        OrderRole::Taker
    }
}

/// What is computed of a trade that is folded in stays in range.
pub open spec fn external_ok(
    t: VenueTradeModel,
    positions: Seq<OpenPosition>,
    fee_pct: Decimal,
) -> bool {
    folds_in(t, positions) ==> {
        let held = positions[exits::position_on(positions, t.token_id)->0].shares;
        let size = folded_size(t, held);
        t.price.times_ok(size) && (t.maker != Some(true) ==> fees::pct_of_ok(
            fee_pct,
            t.price.spec_times(size),
        ))
    }
}

/// A kernel that has folded trades in: none of them is ever fresh again.
pub open spec fn trades_folded(m: CoreModel, trades: Seq<VenueTradeModel>) -> CoreModel {
    CoreModel { recon_watermark_ms: newest(trades, m.recon_watermark_ms), ..m }
}

impl Core {
    /// The trades that were not folded in yet.
    pub fn fresh_trades(&self, trades: &Vec<VenueTrade>) -> (r: Vec<VenueTrade>)
        ensures
            trades_model(r@) == fresh(trades_model(trades@), self@.recon_watermark_ms),
    {
        let ghost all = trades_model(trades@);
        let mut out: Vec<VenueTrade> = Vec::new();
        let mut i: usize = 0;
        proof {
            assert(all.take(0) =~= Seq::empty());
            assert(trades_model(out@) =~= Seq::empty());
        }
        while i < trades.len()
            invariant
                i <= trades@.len(),
                all == trades_model(trades@),
                trades_model(out@) == fresh(all.take(i as int), self@.recon_watermark_ms),
            decreases trades@.len() - i,
        {
            let t = &trades[i];
            proof {
                assert(all.take(i + 1).drop_last() =~= all.take(i as int));
                assert(all.take(i + 1).last() == t@);
            }
            if t.ts_ms > self.recon_watermark_ms {
                let ghost before = trades_model(out@);
                let c = t.clone();
                out.push(c);
                assert(trades_model(out@) =~= before.push(t@));
            }
            i = i + 1;
        }
        assert(all.take(i as int) =~= all);
        out
    }

    /// How a trade made outside the kernel is folded in, where it is. The size, and the cash with
    /// it, is cut to what the position holds: a sell that was not ours must not bring us cash.
    /// Buys are left to the cash that the venue reports.
    pub fn external_sell(
        &self,
        t: &VenueTrade,
        positions: &Vec<OpenPosition>,
        schedule: &FeeSchedule,
        shipped: &FeeSchedule,
        fee_pct: Decimal,
    ) -> (r: Option<ExternalSell>)
        requires
            external_ok(t@, positions@, fee_pct),
            folds_in(t@, positions@) && t.maker != Some(true) ==> fees::chargeable(
                self@.config.fee_schedule_replay,
                *schedule,
                *shipped,
            ),
        ensures
            match r {
                Some(x) => folds_in(t@, positions@) && folded_as(x, t@, positions@, fee_pct),
                None => !folds_in(t@, positions@),
            },
    {
        if t.side != Side::Sell {
            return None;
        }
        match exits::find_on(positions, t.token_id.as_str()) {
            None => None,
            Some(i) => {
                let p = &positions[i];
                let size = t.size.min(p.shares);
                if !size.is_positive() {
                    return None;
                }
                let notional = t.price.times(size);
                let maker = match t.maker {
                    Some(b) => b,
                    None => false,
                };
                let fee_usd = if maker {
                    Decimal::zero()
                } else {
                    fees::percent_of(fee_pct, notional)
                };
                Some(
                    ExternalSell {
                        position_id: p.id.clone(),
                        size,
                        notional,
                        fee_usd,
                        role: if maker {
                            OrderRole::Maker
                        } else {
                            OrderRole::Taker
                        },
                    },
                )
            },
        }
    }

    /// Whether a sell made outside the kernel closes its position: nothing of it is left. The reason
    /// that a close was waiting with is then gone.
    pub fn after_external_sell(&mut self, t: &VenueTrade, left: Option<Decimal>) -> (r: bool)
        requires
            old(self).wf(),
        ensures
            final(self).wf(),
            r == (left matches Some(shares) ==> shares@ == 0),
            final(self)@ == if r {
                (CoreModel {
                    exit_reasons: exit_reasons::clear_step(
                        old(self)@.exit_reasons,
                        t@.token_id,
                    ),
                    ..old(self)@
                })
            } else {
                old(self)@
            },
    {
        let closes = match left {
            Some(shares) => shares == Decimal::zero(),
            None => true,
        };
        if closes {
            self.exit_reasons.clear_exit_reason(t.token_id.as_str());
        }
        closes
    }

    /// Takes in that trades made outside the kernel were folded in: the mark moves to the newest of
    /// them, and never back.
    pub fn advance_watermark(&mut self, trades: &Vec<VenueTrade>)
        requires
            old(self).wf(),
        ensures
            final(self).wf(),
            final(self)@ == trades_folded(old(self)@, trades_model(trades@)),
            final(self)@.recon_watermark_ms >= old(self)@.recon_watermark_ms,
    {
        let ghost all = trades_model(trades@);
        let ghost m = self@;
        let mut mark: i64 = self.recon_watermark_ms;
        let mut i: usize = 0;
        assert(all.take(0) =~= Seq::empty());
        while i < trades.len()
            invariant
                i <= trades@.len(),
                all == trades_model(trades@),
                self@ == m,
                self.wf(),
                mark >= m.recon_watermark_ms,
                mark == newest(all.take(i as int), m.recon_watermark_ms),
            decreases trades@.len() - i,
        {
            proof {
                assert(all.take(i + 1).drop_last() =~= all.take(i as int));
                assert(all.take(i + 1).last() == trades@[i as int]@);
            }
            if trades[i].ts_ms > mark {
                mark = trades[i].ts_ms;
            }
            i = i + 1;
        }
        assert(all.take(i as int) =~= all);
        self.recon_watermark_ms = mark;
    }
}

proof fn lemma_newest(trades: Seq<VenueTradeModel>, mark_ms: i64)
    ensures
        newest(trades, mark_ms) >= mark_ms,
        forall|i: int|
            0 <= i < trades.len() ==> (#[trigger] trades[i]).ts_ms <= newest(trades, mark_ms),
    decreases trades.len(),
{
    if trades.len() > 0 {
        lemma_newest(trades.drop_last(), mark_ms);
        assert forall|i: int| 0 <= i < trades.len() implies (#[trigger] trades[i]).ts_ms <= newest(
            trades,
            mark_ms,
        ) by {
            if i < trades.len() - 1 {
                assert(trades.drop_last()[i] == trades[i]);
            }
        }
    }
}

proof fn lemma_none_fresh(trades: Seq<VenueTradeModel>, mark_ms: i64)
    requires
        forall|i: int| 0 <= i < trades.len() ==> (#[trigger] trades[i]).ts_ms <= mark_ms,
    ensures
        fresh(trades, mark_ms).len() == 0,
    decreases trades.len(),
{
    if trades.len() > 0 {
        assert(trades.last() == trades[trades.len() - 1]);
        assert forall|i: int| 0 <= i < trades.len() - 1 implies (
        #[trigger] trades.drop_last()[i]).ts_ms <= mark_ms by {
            assert(trades.drop_last()[i] == trades[i]);
        }
        lemma_none_fresh(trades.drop_last(), mark_ms);
    }
}

/// A trade that was folded in is never folded in again: a sweep that reports it once more finds
/// nothing fresh.
pub proof fn law_an_external_trade_is_folded_in_once(m: CoreModel, trades: Seq<VenueTradeModel>)
    ensures
        fresh(trades, trades_folded(m, trades).recon_watermark_ms).len() == 0,
        trades_folded(m, trades).recon_watermark_ms >= m.recon_watermark_ms,
{
    lemma_newest(trades, m.recon_watermark_ms);
    lemma_none_fresh(trades, trades_folded(m, trades).recon_watermark_ms);
}

// ---------------------------------------------------------------------------------------------
// Fills that come late

/// The name of an order's state.
pub open spec fn status_name(s: OrderStatus) -> Seq<char> {
    match s {
        OrderStatus::Pending => "Pending"@,
        OrderStatus::Live => "Live"@,
        OrderStatus::PartiallyFilled => "PartiallyFilled"@,
        OrderStatus::Filled => "Filled"@,
        OrderStatus::Cancelled => "Cancelled"@,
        OrderStatus::Rejected => "Rejected"@,
    }
}

fn write_status(s: OrderStatus) -> (r: &'static str)
    ensures
        r@ == status_name(s),
{
    match s {
        OrderStatus::Pending => "Pending",
        OrderStatus::Live => "Live",
        OrderStatus::PartiallyFilled => "PartiallyFilled",
        OrderStatus::Filled => "Filled",
        OrderStatus::Cancelled => "Cancelled",
        OrderStatus::Rejected => "Rejected",
    }
}

/// What an operator is told of a late fill.
pub open spec fn late_fill_text(f: LateFillModel) -> Seq<char> {
    "late_fill order="@ + f.order_id + " trade="@ + if f.trade_id.len() == 0 {
        "-"@
    } else {
        f.trade_id
    } + " status="@ + match f.absorbed_by {
        Some(s) => status_name(s),
        None => "live"@,
    } + " size="@ + decimal::text_of(f.size) + " cumulative="@ + decimal::text_of(f.cumulative)
        + "/"@ + decimal::text_of(f.order_size) + " reported="@ + decimal::text_of(
        f.reported_cumulative,
    ) + " overfill="@ + if f.overfill {
        "true"@
    } else {
        "false"@
    }
}

impl Core {
    /// Tells of a fill that came late. More than an order asked for is a risk; anything else is a
    /// matter of the kernel's own books.
    pub fn emit_late_fill(late: &LateFill) -> (r: (String, Vec<Event>))
        ensures
            r.0@ == late_fill_text(late@),
            service::events_model(r.1@) == seq![
                EventModel::RiskAlert {
                    code: if late.overfill {
                        CoreErrorCode::RiskRejected
                    } else {
                        CoreErrorCode::Internal
                    },
                    message: late_fill_text(late@),
                },
            ],
    {
        let mut message = text::join("late_fill order=", late.order_id.as_str());
        message.append(" trade=");
        message.append(
            if late.trade_id.as_str().unicode_len() == 0 {
                "-"
            } else {
                late.trade_id.as_str()
            },
        );
        message.append(" status=");
        message.append(
            match late.absorbed_by {
                Some(s) => write_status(s),
                None => "live",
            },
        );
        message.append(" size=");
        message.append(late.size.text().as_str());
        message.append(" cumulative=");
        message.append(late.cumulative.text().as_str());
        message.append("/");
        message.append(late.order_size.text().as_str());
        message.append(" reported=");
        message.append(late.reported_cumulative.text().as_str());
        message.append(" overfill=");
        message.append(
            if late.overfill {
                "true"
            } else {
                "false"
            },
        );
        let code = if late.overfill {
            CoreErrorCode::RiskRejected
        } else {
            CoreErrorCode::Internal
        };
        let told = message.clone();
        (message, service::one_event(Event::RiskAlert { code, message: told }))
    }
}

// ---------------------------------------------------------------------------------------------
// Asking beforehand

/// Whether the cash of a fill stays in range.
pub fn cash_fits(d: &FillDelta, fee_pct: Decimal) -> (r: bool)
    ensures
        r == cash_ok(d@, fee_pct),
{
    if d.delta.is_positive() {
        let pct = if d.role == OrderRole::Maker {
            Decimal::zero()
        } else {
            fee_pct
        };
        d.price.can_times(d.delta) && d.limit_price.can_times(d.delta) && fees::percent_fits(
            pct,
            d.price.times(d.delta),
        )
    } else {
        d.price.neg().can_times(d.delta)
    }
}

fn external_fits(t: &VenueTrade, positions: &Vec<OpenPosition>, fee_pct: Decimal) -> (r: bool)
    ensures
        r == external_ok(t@, positions@, fee_pct),
{
    if t.side != Side::Sell {
        return true;
    }
    match exits::find_on(positions, t.token_id.as_str()) {
        None => true,
        Some(i) => {
            let size = t.size.min(positions[i].shares);
            if !size.is_positive() {
                return true;
            }
            if !t.price.can_times(size) {
                return false;
            }
            let maker = match t.maker {
                Some(b) => b,
                None => false,
            };
            maker || fees::percent_fits(fee_pct, t.price.times(size))
        },
    }
}

fn leg_fits(pct: Decimal, price: Decimal, shares: Decimal) -> (r: bool)
    ensures
        r == leg_fee_ok(pct, price, shares),
{
    let h = fees::one_hundred();
    pct.can_over(h) && pct.over(h).can_times(price) && pct.over(h).times(price).can_times(shares)
}

fn trade_fees_fit(c: &ClosedPosition) -> (r: bool)
    ensures
        r == trade_fees_ok(*c),
{
    leg_fits(c.entry_fee_pct, c.entry_price, c.shares) && leg_fits(
        c.exit_fee_pct,
        c.exit_price,
        c.shares,
    ) && leg_fee_of(c.entry_fee_pct, c.entry_price, c.shares).can_plus(
        leg_fee_of(c.exit_fee_pct, c.exit_price, c.shares),
    )
}

impl Core {
    /// The cash of a fill, where it stays in range.
    pub fn checked_fill_cash(
        &self,
        d: &FillDelta,
        schedule: &FeeSchedule,
        shipped: &FeeSchedule,
        fee_pct: Decimal,
    ) -> (r: Option<FillCash>)
        requires
            d.delta@ > 0 && !is_maker(d.role) ==> fees::chargeable(
                self@.config.fee_schedule_replay,
                *schedule,
                *shipped,
            ),
        ensures
            match r {
                Some(x) => {
                    &&& cash_ok(d@, fee_pct)
                    &&& x.fee_usd == fill_fee(d@, fee_pct)
                    &&& moves_model(x.moves@) == cash_moves(d@, fee_pct)
                    &&& (is_maker(d.role) || d.delta@ <= 0 ==> x.fee_usd@ == 0)
                },
                None => !cash_ok(d@, fee_pct),
            },
    {
        if cash_fits(d, fee_pct) {
            Some(self.fill_cash(d, schedule, shipped, fee_pct))
        } else {
            None
        }
    }

    /// How a trade made outside the kernel is folded in, where what is computed stays in range.
    pub fn checked_external_sell(
        &self,
        t: &VenueTrade,
        positions: &Vec<OpenPosition>,
        schedule: &FeeSchedule,
        shipped: &FeeSchedule,
        fee_pct: Decimal,
    ) -> (r: Option<Option<ExternalSell>>)
        requires
            folds_in(t@, positions@) && t.maker != Some(true) ==> fees::chargeable(
                self@.config.fee_schedule_replay,
                *schedule,
                *shipped,
            ),
        ensures
            match r {
                Some(x) => {
                    &&& external_ok(t@, positions@, fee_pct)
                    &&& match x {
                        Some(x) => folds_in(t@, positions@) && folded_as(
                            x,
                            t@,
                            positions@,
                            fee_pct,
                        ),
                        None => !folds_in(t@, positions@),
                    }
                },
                None => !external_ok(t@, positions@, fee_pct),
            },
    {
        if external_fits(t, positions, fee_pct) {
            Some(self.external_sell(t, positions, schedule, shipped, fee_pct))
        } else {
            None
        }
    }

    /// Books a close, where what is computed stays in range; else nothing changes.
    pub fn checked_on_position_closed(
        &mut self,
        closed: &ClosedPosition,
        breaker: BreakerVerdict,
        daily_pnl_usd: Decimal,
        trip: Option<DailyTrip>,
    ) -> (r: Option<Vec<Event>>)
        requires
            old(self).wf(),
        ensures
            final(self).wf(),
            ({
                let a = service::accounting_of(old(self)@, closed.strategy@);
                match r {
                    Some(events) => {
                        &&& close_ok(a, *closed)
                        &&& final(self)@ == close_booked(old(self)@, *closed)
                        &&& service::events_model(events@) == close_events(
                            old(self)@,
                            *closed,
                            breaker,
                            daily_pnl_usd,
                            trip,
                        )
                    },
                    None => !close_ok(a, *closed) && final(self)@ == old(self)@,
                }
            }),
    {
        let fits = trade_fees_fit(closed) && match self.strategy_accounting.get(
            closed.strategy.as_str(),
        ) {
            Some(a) => a.closed_trades < u64::MAX && a.wins < u64::MAX && a.losses < u64::MAX
                && a.fees_usd.can_plus(trade_fees_of(closed)) && a.net_pnl_usd.can_plus(
                closed.net_pnl_usd,
            ),
            None => Decimal::zero().can_plus(trade_fees_of(closed)) && Decimal::zero().can_plus(
                closed.net_pnl_usd,
            ),
        };
        if fits {
            Some(self.on_position_closed(closed, breaker, daily_pnl_usd, trip))
        } else {
            None
        }
    }

    /// Takes a close back, where what is computed stays in range; else nothing changes.
    pub fn checked_unwind_closed_trade(&mut self, closed: &ClosedPosition) -> (r: bool)
        requires
            old(self).wf(),
        ensures
            final(self).wf(),
            r == unwind_ok(service::accounting_of(old(self)@, closed.strategy@), *closed),
            final(self)@ == if r {
                close_unwound(old(self)@, *closed)
            } else {
                old(self)@
            },
    {
        let fits = trade_fees_fit(closed) && match self.strategy_accounting.get(
            closed.strategy.as_str(),
        ) {
            Some(a) => a.fees_usd.can_minus(trade_fees_of(closed)) && a.net_pnl_usd.can_minus(
                closed.net_pnl_usd,
            ),
            None => Decimal::zero().can_minus(trade_fees_of(closed)) && Decimal::zero().can_minus(
                closed.net_pnl_usd,
            ),
        };
        if fits {
            self.unwind_closed_trade(closed);
        }
        fits
    }
}

} // verus!
