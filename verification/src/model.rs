//! The plain data that the kernel passes around: positions, resolutions, redemptions.
use vstd::prelude::*;

use crate::decimal::Decimal;

verus! {

/// The texts of a list of strings.
pub open spec fn texts(v: Seq<String>) -> Seq<Seq<char>> {
    v.map_values(|s: String| s@)
}

/// The text of an optional string.
pub open spec fn opt_text(o: Option<String>) -> Option<Seq<char>> {
    match o {
        Some(s) => Some(s@),
        None => None,
    }
}

/// A copy of a list of strings.
pub fn clone_texts(v: &Vec<String>) -> (r: Vec<String>)
    ensures
        r@ == v@,
{
    let mut out: Vec<String> = Vec::new();
    let mut i: usize = 0;
    while i < v.len()
        invariant
            i <= v@.len(),
            out@ == v@.take(i as int),
        decreases v@.len() - i,
    {
        out.push(v[i].clone());
        i = i + 1;
        assert(out@ =~= v@.take(i as int));
    }
    assert(v@.take(i as int) =~= v@);
    out
}

/// A copy of a list of numbers.
pub fn clone_decimals(v: &Vec<Decimal>) -> (r: Vec<Decimal>)
    ensures
        r@ == v@,
{
    let mut out: Vec<Decimal> = Vec::new();
    let mut i: usize = 0;
    while i < v.len()
        invariant
            i <= v@.len(),
            out@ == v@.take(i as int),
        decreases v@.len() - i,
    {
        out.push(v[i]);
        i = i + 1;
        assert(out@ =~= v@.take(i as int));
    }
    assert(v@.take(i as int) =~= v@);
    out
}

/// A copy of a list of price levels.
pub fn clone_levels(v: &Vec<(Decimal, Decimal)>) -> (r: Vec<(Decimal, Decimal)>)
    ensures
        r@ == v@,
{
    let mut out: Vec<(Decimal, Decimal)> = Vec::new();
    let mut i: usize = 0;
    while i < v.len()
        invariant
            i <= v@.len(),
            out@ == v@.take(i as int),
        decreases v@.len() - i,
    {
        out.push((v[i].0, v[i].1));
        i = i + 1;
        assert(out@ =~= v@.take(i as int));
    }
    assert(v@.take(i as int) =~= v@);
    out
}

/// Which outcome a position bets on.
#[derive(Clone, Copy, Debug, PartialEq, Eq, Structural)]
pub enum SignalDirection {
    Up,
    Down,
}

/// How an order's fills took or made liquidity.
#[derive(Clone, Copy, Debug, PartialEq, Eq, Structural)]
pub enum OrderRole {
    Pending,
    Maker,
    Taker,
    MakerThenTaker,
}

/// Why a position was closed.
#[derive(Clone, Copy, Debug, PartialEq, Eq, Structural)]
pub enum ExitReason {
    TakeProfit,
    StopLoss,
    ForceExit,
    Manual,
    Settlement,
    StrategySignal,
}

impl ExitReason {
    /// The name of the reason.
    pub open spec fn spec_name(self) -> Seq<char> {
        match self {
            ExitReason::TakeProfit => "TakeProfit"@,
            ExitReason::StopLoss => "StopLoss"@,
            ExitReason::ForceExit => "ForceExit"@,
            ExitReason::Manual => "Manual"@,
            ExitReason::Settlement => "Settlement"@,
            ExitReason::StrategySignal => "StrategySignal"@,
        }
    }

    /// The name of the reason.
    pub fn name(self) -> (r: &'static str)
        ensures
            r@ == self.spec_name(),
    {
        match self {
            ExitReason::TakeProfit => "TakeProfit",
            ExitReason::StopLoss => "StopLoss",
            ExitReason::ForceExit => "ForceExit",
            ExitReason::Manual => "Manual",
            ExitReason::Settlement => "Settlement",
            ExitReason::StrategySignal => "StrategySignal",
        }
    }
}

/// The cash that a position moved so far.
#[derive(Clone, Copy, Debug)]
pub struct CashFlows {
    /// The total paid in for shares; a partial exit does not shrink it.
    pub entry_cost_usd: Decimal,
    /// The fees paid on entries.
    pub entry_fee_usd: Decimal,
    /// The fees paid on exits.
    pub exit_fee_usd: Decimal,
    /// The total received for shares.
    pub proceeds_usd: Decimal,
    /// The shares bought in all.
    pub opened_shares: Decimal,
}

/// A position that is held.
#[derive(Debug)]
pub struct OpenPosition {
    pub id: String,
    pub strategy: String,
    pub asset: String,
    pub direction: SignalDirection,
    pub token_id: String,
    pub condition_id: String,
    pub entry_price: Decimal,
    pub current_price: Decimal,
    pub prev_price: Decimal,
    pub shares: Decimal,
    /// The basis of the shares still held.
    pub cost_usd: Decimal,
    pub was_maker_entry: bool,
    pub entry_fee_pct: Decimal,
    pub entry_role: OrderRole,
    pub exit_role: OrderRole,
    pub target_exit_price: Option<Decimal>,
    pub entered_at_ms: i64,
    /// The end of the market's round.
    pub expires_at_ms: i64,
    /// When a book was last seen for the token; 0 before the first one.
    pub last_book_ts: i64,
    pub flows: CashFlows,
}

impl Clone for OpenPosition {
    fn clone(&self) -> (r: Self)
        ensures
            r == *self,
    {
        OpenPosition {
            id: self.id.clone(),
            strategy: self.strategy.clone(),
            asset: self.asset.clone(),
            direction: self.direction,
            token_id: self.token_id.clone(),
            condition_id: self.condition_id.clone(),
            entry_price: self.entry_price,
            current_price: self.current_price,
            prev_price: self.prev_price,
            shares: self.shares,
            cost_usd: self.cost_usd,
            was_maker_entry: self.was_maker_entry,
            entry_fee_pct: self.entry_fee_pct,
            entry_role: self.entry_role,
            exit_role: self.exit_role,
            target_exit_price: self.target_exit_price,
            entered_at_ms: self.entered_at_ms,
            expires_at_ms: self.expires_at_ms,
            last_book_ts: self.last_book_ts,
            flows: self.flows,
        }
    }
}

/// The venue's verdict on a market.
#[derive(Debug)]
pub struct MarketResolution {
    pub condition_id: String,
    /// Whether the market has resolved.
    pub resolved: bool,
    /// What one share of each outcome token pays, in the market's outcome order.
    pub payouts: Vec<(String, Decimal)>,
    /// Whether the market settles through the NegRisk adapter.
    pub neg_risk: bool,
    /// Where the verdict came from.
    pub source: String,
    /// The outcome token that the market pays for, where the venue names one.
    pub winning_token: Option<String>,
}

/// The first outcome of a token in a list of payouts.
pub open spec fn payout_index(payouts: Seq<(String, Decimal)>, token: Seq<char>) -> Option<int>
    decreases payouts.len(),
{
    if payouts.len() == 0 {
        None
    } else {
        match payout_index(payouts.drop_last(), token) {
            Some(i) => Some(i),
            None => if payouts.last().0@ == token {
                Some(payouts.len() - 1)
            } else {
                None
            },
        }
    }
}

/// A token's index in a list of payouts is the first place that names it.
pub proof fn lemma_payout_index(payouts: Seq<(String, Decimal)>, token: Seq<char>)
    ensures
        match payout_index(payouts, token) {
            Some(i) => {
                &&& 0 <= i < payouts.len()
                &&& payouts[i].0@ == token
                &&& forall|j: int| 0 <= j < i ==> (#[trigger] payouts[j]).0@ != token
            },
            None => forall|j: int| 0 <= j < payouts.len() ==> (#[trigger] payouts[j]).0@ != token,
        },
    decreases payouts.len(),
{
    if payouts.len() > 0 {
        let front = payouts.drop_last();
        lemma_payout_index(front, token);
        match payout_index(front, token) {
            Some(i) => {
                assert(payouts[i] == front[i]);
                assert forall|j: int| 0 <= j < i implies (#[trigger] payouts[j]).0@ != token by {
                    assert(front[j] == payouts[j]);
                }
            },
            None => {
                assert forall|j: int| 0 <= j < payouts.len() - 1 implies (
                #[trigger] payouts[j]).0@ != token by {
                    assert(front[j] == payouts[j]);
                }
            },
        }
    }
}

impl MarketResolution {
    /// The index of a token in the market's outcome order.
    pub fn outcome_index(&self, token_id: &str) -> (r: Option<usize>)
        ensures
            match r {
                Some(i) => payout_index(self.payouts@, token_id@) == Some(i as int),
                None => payout_index(self.payouts@, token_id@) is None,
            },
            r matches Some(i) ==> i < self.payouts@.len(),
    {
        proof {
            lemma_payout_index(self.payouts@, token_id@);
        }
        let mut i: usize = 0;
        while i < self.payouts.len()
            invariant
                i <= self.payouts@.len(),
                forall|j: int| 0 <= j < i ==> (#[trigger] self.payouts@[j]).0@ != token_id@,
                match payout_index(self.payouts@, token_id@) {
                    Some(k) => {
                        &&& 0 <= k < self.payouts@.len()
                        &&& self.payouts@[k].0@ == token_id@
                        &&& forall|j: int| 0 <= j < k ==> (#[trigger] self.payouts@[j]).0@ != token_id@
                    },
                    None => forall|j: int|
                        0 <= j < self.payouts@.len() ==> (#[trigger] self.payouts@[j]).0@
                            != token_id@,
                },
            decreases self.payouts@.len() - i,
        {
            if crate::text::same_text(self.payouts[i].0.as_str(), token_id) {
                return Some(i);
            }
            i = i + 1;
        }
        None
    }

    /// What one share of a token pays, where the verdict names the token.
    pub fn payout_per_share(&self, token_id: &str) -> (r: Option<Decimal>)
        ensures
            r == match payout_index(self.payouts@, token_id@) {
                Some(i) => Some(self.payouts@[i].1),
                None => None,
            },
    {
        match self.outcome_index(token_id) {
            Some(i) => Some(self.payouts[i].1),
            None => None,
        }
    }
}

/// A redemption for the venue to execute.
#[derive(Debug)]
pub struct RedemptionRequest {
    pub id: String,
    pub condition_id: String,
    pub neg_risk: bool,
    pub outcome_shares: Vec<Decimal>,
    pub expected_payout_usd: Decimal,
    pub winning_token_id: String,
}

/// What a redemption request says.
pub struct RequestModel {
    pub id: Seq<char>,
    pub condition_id: Seq<char>,
    pub neg_risk: bool,
    pub outcome_shares: Seq<Decimal>,
    pub expected_payout_usd: Decimal,
    pub winning_token_id: Seq<char>,
}

impl View for RedemptionRequest {
    type V = RequestModel;

    open spec fn view(&self) -> RequestModel {
        RequestModel {
            id: self.id@,
            condition_id: self.condition_id@,
            neg_risk: self.neg_risk,
            outcome_shares: self.outcome_shares@,
            expected_payout_usd: self.expected_payout_usd,
            winning_token_id: self.winning_token_id@,
        }
    }
}

/// Why a redemption did not land.
#[derive(Debug)]
pub struct RedemptionFailure {
    pub message: String,
    /// No retry can land it: an operator has to act.
    pub manual: bool,
}

/// What became of a redemption.
#[derive(Debug)]
pub struct RedemptionResult {
    pub id: String,
    pub condition_id: String,
    pub tx_hash: Option<String>,
    pub block_number: Option<u64>,
    pub failure: Option<RedemptionFailure>,
    pub at_ms: i64,
}

/// A question to the venue: has this market resolved?
#[derive(Debug)]
pub struct SettlementQuery {
    pub condition_id: String,
    /// The tokens held on the market, as a lookup hint.
    pub token_ids: Vec<String>,
    pub expires_at_ms: i64,
}

/// What a settlement query says.
pub struct SettlementQueryModel {
    pub condition_id: Seq<char>,
    pub token_ids: Seq<Seq<char>>,
    pub expires_at_ms: i64,
}

impl View for SettlementQuery {
    type V = SettlementQueryModel;

    open spec fn view(&self) -> SettlementQueryModel {
        SettlementQueryModel {
            condition_id: self.condition_id@,
            token_ids: texts(self.token_ids@),
            expires_at_ms: self.expires_at_ms,
        }
    }
}

/// How the kernel runs.
#[derive(Clone, Copy, Debug, PartialEq, Eq, Structural)]
pub enum Mode {
    /// Orders are filled by the kernel's own matcher.
    Dry,
    /// The kernel watches a venue and fills orders itself.
    ReadOnly,
    /// Orders go to the venue.
    Live,
}

impl Mode {
    /// The kernel fills and settles by itself.
    pub open spec fn is_local(self) -> bool {
        self != Mode::Live
    }

    /// Whether the kernel fills and settles by itself.
    pub fn settles_locally(self) -> (r: bool)
        ensures
            r == self.is_local(),
    {
        self != Mode::Live
    }
}

/// Which book an equity figure comes from.
#[derive(Clone, Copy, Debug, PartialEq, Eq, Structural)]
pub enum EquityBasis {
    Dry,
    Live,
}

/// The side of an order.
#[derive(Clone, Copy, Debug, PartialEq, Eq, Structural)]
pub enum Side {
    Buy,
    Sell,
}

/// How an order is meant to fill.
#[derive(Clone, Copy, Debug, PartialEq, Eq, Structural)]
pub enum FillPolicy {
    /// Rest on the book.
    Maker,
    /// Cross the book at once, in full or not at all.
    Taker,
    /// Rest on the book, and cross it after a while.
    MakerThenTaker,
}

/// The state of an order.
#[derive(Clone, Copy, Debug, PartialEq, Eq, Structural)]
pub enum OrderStatus {
    Pending,
    Live,
    PartiallyFilled,
    Filled,
    Cancelled,
    Rejected,
}

/// What went wrong.
#[derive(Clone, Copy, Debug, PartialEq, Eq, Structural)]
pub enum CoreErrorCode {
    InsufficientFunds,
    Internal,
    InvalidParams,
    InvalidSize,
    InvalidTickSize,
    KillSwitchActive,
    NotAuthenticated,
    RiskRejected,
    UnknownOrder,
    VenueError,
    WouldCross,
}

impl CoreErrorCode {
    /// The name of the code.
    pub open spec fn spec_name(self) -> Seq<char> {
        match self {
            CoreErrorCode::InsufficientFunds => "InsufficientFunds"@,
            CoreErrorCode::Internal => "Internal"@,
            CoreErrorCode::InvalidParams => "InvalidParams"@,
            CoreErrorCode::InvalidSize => "InvalidSize"@,
            CoreErrorCode::InvalidTickSize => "InvalidTickSize"@,
            CoreErrorCode::KillSwitchActive => "KillSwitchActive"@,
            CoreErrorCode::NotAuthenticated => "NotAuthenticated"@,
            CoreErrorCode::RiskRejected => "RiskRejected"@,
            CoreErrorCode::UnknownOrder => "UnknownOrder"@,
            CoreErrorCode::VenueError => "VenueError"@,
            CoreErrorCode::WouldCross => "WouldCross"@,
        }
    }

    /// The name of the code.
    pub fn name(self) -> (r: &'static str)
        ensures
            r@ == self.spec_name(),
    {
        match self {
            CoreErrorCode::InsufficientFunds => "InsufficientFunds",
            CoreErrorCode::Internal => "Internal",
            CoreErrorCode::InvalidParams => "InvalidParams",
            CoreErrorCode::InvalidSize => "InvalidSize",
            CoreErrorCode::InvalidTickSize => "InvalidTickSize",
            CoreErrorCode::KillSwitchActive => "KillSwitchActive",
            CoreErrorCode::NotAuthenticated => "NotAuthenticated",
            CoreErrorCode::RiskRejected => "RiskRejected",
            CoreErrorCode::UnknownOrder => "UnknownOrder",
            CoreErrorCode::VenueError => "VenueError",
            CoreErrorCode::WouldCross => "WouldCross",
        }
    }
}

/// An error, with the code that classifies it.
#[derive(Debug)]
pub struct CoreError {
    pub code: CoreErrorCode,
    pub message: String,
    /// The text of the party that reported it, where there is one.
    pub raw: Option<String>,
}

/// What an error says.
pub struct CoreErrorModel {
    pub code: CoreErrorCode,
    pub message: Seq<char>,
    pub raw: Option<Seq<char>>,
}

impl View for CoreError {
    type V = CoreErrorModel;

    open spec fn view(&self) -> CoreErrorModel {
        CoreErrorModel {
            code: self.code,
            message: self.message@,
            raw: opt_text(self.raw),
        }
    }
}

impl Clone for CoreError {
    fn clone(&self) -> (r: Self)
        ensures
            r@ == self@,
    {
        CoreError {
            code: self.code,
            message: self.message.clone(),
            raw: self.raw.clone(),
        }
    }
}

impl CoreError {
    /// An error with a code and a message.
    pub fn new(code: CoreErrorCode, message: String) -> (r: Self)
        ensures
            r@ == spec_error(code, message@),
    {
        CoreError { code, message, raw: None }
    }
}

/// An error with a code and a message.
pub open spec fn spec_error(code: CoreErrorCode, message: Seq<char>) -> CoreErrorModel {
    CoreErrorModel { code, message, raw: None }
}

/// An order to place.
#[derive(Debug)]
pub struct OrderRequest {
    pub token_id: String,
    pub condition_id: String,
    pub side: Side,
    pub mode: FillPolicy,
    pub price: Decimal,
    pub size: Decimal,
    /// The intent that the order serves; retries of one intent share it.
    pub internal_key: String,
    pub strategy: String,
    pub asset: String,
    pub direction: String,
    pub round_slot: i64,
}

/// What an order request says.
pub struct OrderRequestModel {
    pub token_id: Seq<char>,
    pub condition_id: Seq<char>,
    pub side: Side,
    pub mode: FillPolicy,
    pub price: Decimal,
    pub size: Decimal,
    pub internal_key: Seq<char>,
    pub strategy: Seq<char>,
    pub asset: Seq<char>,
    pub direction: Seq<char>,
    pub round_slot: i64,
}

impl View for OrderRequest {
    type V = OrderRequestModel;

    open spec fn view(&self) -> OrderRequestModel {
        OrderRequestModel {
            token_id: self.token_id@,
            condition_id: self.condition_id@,
            side: self.side,
            mode: self.mode,
            price: self.price,
            size: self.size,
            internal_key: self.internal_key@,
            strategy: self.strategy@,
            asset: self.asset@,
            direction: self.direction@,
            round_slot: self.round_slot,
        }
    }
}

impl Clone for OrderRequest {
    fn clone(&self) -> (r: Self)
        ensures
            r@ == self@,
    {
        OrderRequest {
            token_id: self.token_id.clone(),
            condition_id: self.condition_id.clone(),
            side: self.side,
            mode: self.mode,
            price: self.price,
            size: self.size,
            internal_key: self.internal_key.clone(),
            strategy: self.strategy.clone(),
            asset: self.asset.clone(),
            direction: self.direction.clone(),
            round_slot: self.round_slot,
        }
    }
}

/// An order, as the order manager holds it.
#[derive(Debug)]
pub struct TrackedOrder {
    pub order_id: String,
    pub token_id: String,
    pub condition_id: String,
    pub side: Side,
    pub mode: FillPolicy,
    pub price: Decimal,
    pub size: Decimal,
    pub filled_size: Decimal,
    pub status: OrderStatus,
    /// Whether the order manager counts the order as working.
    pub live: bool,
    pub internal_key: String,
    pub strategy: String,
    pub asset: String,
    pub direction: String,
    pub round_slot: i64,
    pub submitted_at_ms: i64,
    pub updated_at_ms: i64,
    pub maker_timeout_ms: i64,
    /// When the order gives up resting and crosses the book.
    pub escalate_at_ms: Option<i64>,
    pub venue_order_id: Option<String>,
}

/// What an order says.
pub struct TrackedOrderModel {
    pub order_id: Seq<char>,
    pub token_id: Seq<char>,
    pub condition_id: Seq<char>,
    pub side: Side,
    pub mode: FillPolicy,
    pub price: Decimal,
    pub size: Decimal,
    pub filled_size: Decimal,
    pub status: OrderStatus,
    pub live: bool,
    pub internal_key: Seq<char>,
    pub strategy: Seq<char>,
    pub asset: Seq<char>,
    pub direction: Seq<char>,
    pub round_slot: i64,
    pub submitted_at_ms: i64,
    pub updated_at_ms: i64,
    pub maker_timeout_ms: i64,
    pub escalate_at_ms: Option<i64>,
    pub venue_order_id: Option<Seq<char>>,
}

impl View for TrackedOrder {
    type V = TrackedOrderModel;

    open spec fn view(&self) -> TrackedOrderModel {
        TrackedOrderModel {
            order_id: self.order_id@,
            token_id: self.token_id@,
            condition_id: self.condition_id@,
            side: self.side,
            mode: self.mode,
            price: self.price,
            size: self.size,
            filled_size: self.filled_size,
            status: self.status,
            live: self.live,
            internal_key: self.internal_key@,
            strategy: self.strategy@,
            asset: self.asset@,
            direction: self.direction@,
            round_slot: self.round_slot,
            submitted_at_ms: self.submitted_at_ms,
            updated_at_ms: self.updated_at_ms,
            maker_timeout_ms: self.maker_timeout_ms,
            escalate_at_ms: self.escalate_at_ms,
            venue_order_id: opt_text(self.venue_order_id),
        }
    }
}

impl Clone for TrackedOrder {
    fn clone(&self) -> (r: Self)
        ensures
            r@ == self@,
    {
        TrackedOrder {
            order_id: self.order_id.clone(),
            token_id: self.token_id.clone(),
            condition_id: self.condition_id.clone(),
            side: self.side,
            mode: self.mode,
            price: self.price,
            size: self.size,
            filled_size: self.filled_size,
            status: self.status,
            live: self.live,
            internal_key: self.internal_key.clone(),
            strategy: self.strategy.clone(),
            asset: self.asset.clone(),
            direction: self.direction.clone(),
            round_slot: self.round_slot,
            submitted_at_ms: self.submitted_at_ms,
            updated_at_ms: self.updated_at_ms,
            maker_timeout_ms: self.maker_timeout_ms,
            escalate_at_ms: self.escalate_at_ms,
            venue_order_id: self.venue_order_id.clone(),
        }
    }
}

/// What the kernel tells the outside.
#[derive(Debug)]
pub enum Event {
    /// Something an operator should know.
    RiskAlert { code: CoreErrorCode, message: String },
    /// An error.
    Error { error: CoreError },
    /// A position was closed.
    PositionClosed {
        id: String,
        asset: String,
        direction: String,
        reason: String,
        strategy: String,
        token_id: String,
        condition_id: String,
        net_pnl_usd: Decimal,
        net_pnl_pct: Decimal,
        daily_pnl_usd: Decimal,
    },
    /// A sweep against the venue found something.
    ReconcileReport {
        filled: usize,
        marked_filled: usize,
        marked_cancelled: usize,
        ghost_ids: Vec<String>,
    },
}

/// What an event says.
pub enum EventModel {
    RiskAlert { code: CoreErrorCode, message: Seq<char> },
    Error { error: CoreErrorModel },
    PositionClosed {
        id: Seq<char>,
        asset: Seq<char>,
        direction: Seq<char>,
        reason: Seq<char>,
        strategy: Seq<char>,
        token_id: Seq<char>,
        condition_id: Seq<char>,
        net_pnl_usd: Decimal,
        net_pnl_pct: Decimal,
        daily_pnl_usd: Decimal,
    },
    ReconcileReport {
        filled: usize,
        marked_filled: usize,
        marked_cancelled: usize,
        ghost_ids: Seq<Seq<char>>,
    },
}

impl View for Event {
    type V = EventModel;

    open spec fn view(&self) -> EventModel {
        match self {
            Event::RiskAlert { code, message } => EventModel::RiskAlert {
                code: *code,
                message: message@,
            },
            Event::Error { error } => EventModel::Error { error: error@ },
            Event::PositionClosed {
                id,
                asset,
                direction,
                reason,
                strategy,
                token_id,
                condition_id,
                net_pnl_usd,
                net_pnl_pct,
                daily_pnl_usd,
            } => EventModel::PositionClosed {
                id: id@,
                asset: asset@,
                direction: direction@,
                reason: reason@,
                strategy: strategy@,
                token_id: token_id@,
                condition_id: condition_id@,
                net_pnl_usd: *net_pnl_usd,
                net_pnl_pct: *net_pnl_pct,
                daily_pnl_usd: *daily_pnl_usd,
            },
            Event::ReconcileReport {
                filled,
                marked_filled,
                marked_cancelled,
                ghost_ids,
            } => EventModel::ReconcileReport {
                filled: *filled,
                marked_filled: *marked_filled,
                marked_cancelled: *marked_cancelled,
                ghost_ids: texts(ghost_ids@),
            },
        }
    }
}

impl Clone for Event {
    fn clone(&self) -> (r: Self)
        ensures
            r@ == self@,
    {
        match self {
            Event::RiskAlert { code, message } => Event::RiskAlert {
                code: *code,
                message: message.clone(),
            },
            Event::Error { error } => Event::Error { error: error.clone() },
            Event::PositionClosed {
                id,
                asset,
                direction,
                reason,
                strategy,
                token_id,
                condition_id,
                net_pnl_usd,
                net_pnl_pct,
                daily_pnl_usd,
            } => Event::PositionClosed {
                id: id.clone(),
                asset: asset.clone(),
                direction: direction.clone(),
                reason: reason.clone(),
                strategy: strategy.clone(),
                token_id: token_id.clone(),
                condition_id: condition_id.clone(),
                net_pnl_usd: *net_pnl_usd,
                net_pnl_pct: *net_pnl_pct,
                daily_pnl_usd: *daily_pnl_usd,
            },
            Event::ReconcileReport {
                filled,
                marked_filled,
                marked_cancelled,
                ghost_ids,
            } => Event::ReconcileReport {
                filled: *filled,
                marked_filled: *marked_filled,
                marked_cancelled: *marked_cancelled,
                ghost_ids: clone_texts(ghost_ids),
            },
        }
    }
}

} // verus!
