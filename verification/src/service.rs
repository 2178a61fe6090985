//! The kernel's own state, and the records that it is made of.
//!
//! The kernel decides; orders, cash, positions and the venue are held by others. A method here
//! takes what it needs to know of them as plain values, changes the kernel's own state, and says
//! what is to be done.
use vstd::prelude::*;
use vstd::string::*;

use crate::config::{CoreConfig, CoreConfigModel};
use crate::decimal::Decimal;
use crate::exit_reasons::{ExitReasonTable, ReasonsModel};
use crate::model;
use crate::model::{
    CoreError, CoreErrorCode, CoreErrorModel, Event, EventModel, ExitReason, OpenPosition,
    OrderStatus, SignalDirection,
};
use crate::rejections;
use crate::rejections::{RejectCooldown, RejectCooldownModel};
use crate::settlement;
use crate::settlement::SettlementBook;
use crate::str_map::{StrMap, StrSet};
use crate::text;

verus! {

/// The most venue cancels that wait at a time.
pub const PENDING_CANCELS_MAX: usize = 256;

/// The most closes that can be taken back.
pub const CLOSE_CREDENTIALS_MAX: usize = 512;

/// What the feed and the decisions amounted to in this session.
#[derive(Clone, Copy, Debug, PartialEq, Eq, Structural)]
pub struct CoreStats {
    pub books: u64,
    pub tops: u64,
    pub spots: u64,
    pub rounds: u64,
    pub evaluations: u64,
    pub signals: u64,
    pub place_rejected: u64,
    /// The entries that a cap refused.
    pub strategy_limit_rejected: u64,
    /// The orders that the venue refused.
    pub venue_rejected: u64,
}

/// The cash and what explains it.
#[derive(Clone, Copy, Debug)]
pub struct CashIdentity {
    pub balance: Decimal,
    /// Settled but not yet redeemed: owed to us, not in the wallet.
    pub receivable: Decimal,
    pub realized: Decimal,
    pub spent: Decimal,
    pub received: Decimal,
}

/// The kernel's last error, as a panel shows it.
#[derive(Debug)]
pub struct LastError {
    pub ts_ms: i64,
    pub code: CoreErrorCode,
    pub message: String,
}

/// What the last error says.
pub struct LastErrorModel {
    pub ts_ms: i64,
    pub code: CoreErrorCode,
    pub message: Seq<char>,
}

impl View for LastError {
    type V = LastErrorModel;

    open spec fn view(&self) -> LastErrorModel {
        LastErrorModel {
            ts_ms: self.ts_ms,
            code: self.code,
            message: self.message@,
        }
    }
}

impl Clone for LastError {
    fn clone(&self) -> (r: Self)
        ensures
            r@ == self@,
    {
        LastError {
            ts_ms: self.ts_ms,
            code: self.code,
            message: self.message.clone(),
        }
    }
}

/// What came of a placement: the order, its state, and the reason where the kernel itself refused the leg.
#[derive(Debug)]
pub struct PlaceOutcome {
    pub order_id: String,
    pub status: OrderStatus,
    pub rejection: Option<CoreError>,
}

/// What the outcome of a placement says.
pub struct PlaceOutcomeModel {
    pub order_id: Seq<char>,
    pub status: OrderStatus,
    pub rejection: Option<CoreErrorModel>,
}

impl View for PlaceOutcome {
    type V = PlaceOutcomeModel;

    open spec fn view(&self) -> PlaceOutcomeModel {
        PlaceOutcomeModel {
            order_id: self.order_id@,
            status: self.status,
            rejection: match self.rejection { Some(v) => Some(v@), None => None },
        }
    }
}

impl Clone for PlaceOutcome {
    fn clone(&self) -> (r: Self)
        ensures
            r@ == self@,
    {
        PlaceOutcome {
            order_id: self.order_id.clone(),
            status: self.status,
            rejection: match &self.rejection { Some(v) => Some(v.clone()), None => None },
        }
    }
}

/// What one strategy did in this session.
#[derive(Debug)]
pub struct StrategyAccounting {
    pub placed: u64,
    pub rejected: u64,
    pub limit_rejected: u64,
    /// How often each cause was counted.
    pub rejection_causes: StrMap<u64>,
    pub closed_trades: u64,
    pub wins: u64,
    pub losses: u64,
    pub fees_usd: Decimal,
    pub net_pnl_usd: Decimal,
}

/// What the accounting of a strategy says.
#[verifier::ext_equal]
pub struct StrategyAccountingModel {
    pub placed: u64,
    pub rejected: u64,
    pub limit_rejected: u64,
    pub rejection_causes: Map<Seq<char>, u64>,
    pub closed_trades: u64,
    pub wins: u64,
    pub losses: u64,
    pub fees_usd: Decimal,
    pub net_pnl_usd: Decimal,
}

impl View for StrategyAccounting {
    type V = StrategyAccountingModel;

    open spec fn view(&self) -> StrategyAccountingModel {
        StrategyAccountingModel {
            placed: self.placed,
            rejected: self.rejected,
            limit_rejected: self.limit_rejected,
            rejection_causes: self.rejection_causes@,
            closed_trades: self.closed_trades,
            wins: self.wins,
            losses: self.losses,
            fees_usd: self.fees_usd,
            net_pnl_usd: self.net_pnl_usd,
        }
    }
}

/// One probe of the trading self-check.
#[derive(Debug)]
pub struct SelfCheckItem {
    pub name: String,
    pub ok: bool,
    pub detail: String,
}

/// What a probe says.
pub struct SelfCheckItemModel {
    pub name: Seq<char>,
    pub ok: bool,
    pub detail: Seq<char>,
}

impl View for SelfCheckItem {
    type V = SelfCheckItemModel;

    open spec fn view(&self) -> SelfCheckItemModel {
        SelfCheckItemModel {
            name: self.name@,
            ok: self.ok,
            detail: self.detail@,
        }
    }
}

impl Clone for SelfCheckItem {
    fn clone(&self) -> (r: Self)
        ensures
            r@ == self@,
    {
        SelfCheckItem {
            name: self.name.clone(),
            ok: self.ok,
            detail: self.detail.clone(),
        }
    }
}

/// A copy of a list.
pub fn clone_self_check_items(v: &Vec<SelfCheckItem>) -> (r: Vec<SelfCheckItem>)
    ensures
        r@.map_values(|x: SelfCheckItem| x@) == v@.map_values(|x: SelfCheckItem| x@),
{
    let mut out: Vec<SelfCheckItem> = Vec::new();
    let mut i: usize = 0;
    while i < v.len()
        invariant
            i <= v@.len(),
            out@.len() == i,
            forall|j: int| 0 <= j < i ==> (#[trigger] out@[j])@ == v@[j]@,
        decreases v@.len() - i,
    {
        out.push(v[i].clone());
        i = i + 1;
    }
    assert(out@.map_values(|x: SelfCheckItem| x@) =~= v@.map_values(|x: SelfCheckItem| x@));
    out
}

/// The trading self-check.
#[derive(Debug)]
pub struct SelfCheckReport {
    pub ok: bool,
    pub ts_ms: i64,
    pub items: Vec<SelfCheckItem>,
}

/// What a self-check says.
pub struct SelfCheckReportModel {
    pub ok: bool,
    pub ts_ms: i64,
    pub items: Seq<SelfCheckItemModel>,
}

impl View for SelfCheckReport {
    type V = SelfCheckReportModel;

    open spec fn view(&self) -> SelfCheckReportModel {
        SelfCheckReportModel {
            ok: self.ok,
            ts_ms: self.ts_ms,
            items: self.items@.map_values(|v: SelfCheckItem| v@),
        }
    }
}

impl Clone for SelfCheckReport {
    fn clone(&self) -> (r: Self)
        ensures
            r@ == self@,
    {
        SelfCheckReport {
            ok: self.ok,
            ts_ms: self.ts_ms,
            items: clone_self_check_items(&self.items),
        }
    }
}

/// The verdict of an accounting audit.
#[derive(Debug)]
pub struct AuditReport {
    pub ok: bool,
    /// The kernel's own books disagree with each other.
    pub structural_failure: bool,
    pub note: String,
    pub drift_usd: Decimal,
    pub summary: String,
}

/// What the verdict of an audit says.
pub struct AuditReportModel {
    pub ok: bool,
    pub structural_failure: bool,
    pub note: Seq<char>,
    pub drift_usd: Decimal,
    pub summary: Seq<char>,
}

impl View for AuditReport {
    type V = AuditReportModel;

    open spec fn view(&self) -> AuditReportModel {
        AuditReportModel {
            ok: self.ok,
            structural_failure: self.structural_failure,
            note: self.note@,
            drift_usd: self.drift_usd,
            summary: self.summary@,
        }
    }
}

impl Clone for AuditReport {
    fn clone(&self) -> (r: Self)
        ensures
            r@ == self@,
    {
        AuditReport {
            ok: self.ok,
            structural_failure: self.structural_failure,
            note: self.note.clone(),
            drift_usd: self.drift_usd,
            summary: self.summary.clone(),
        }
    }
}

/// How the accounting audit is going in this session.
#[derive(Debug)]
pub struct AuditRuntime {
    /// The last audit; 0 before the first one.
    pub last_at_ms: i64,
    /// The last audit that was written down.
    pub last_heartbeat_ms: i64,
    /// What the cash is measured from: the first audit whose own books agreed.
    pub anchor: Option<CashIdentity>,
    pub report: Option<AuditReport>,
    /// The failures in a row that only another source disagrees with.
    pub cross_source_failures: u32,
    /// New entries are blocked.
    pub halted: bool,
    pub halt_reason: String,
    pub runs: u64,
    pub failures: u64,
    /// When the cash was last set from the venue, and by how much it moved.
    pub last_realign: Option<(i64, Decimal)>,
}

/// What is known of the accounting audit.
pub struct AuditRuntimeModel {
    pub last_at_ms: i64,
    pub last_heartbeat_ms: i64,
    pub anchor: Option<CashIdentity>,
    pub report: Option<AuditReportModel>,
    pub cross_source_failures: u32,
    pub halted: bool,
    pub halt_reason: Seq<char>,
    pub runs: u64,
    pub failures: u64,
    pub last_realign: Option<(i64, Decimal)>,
}

impl View for AuditRuntime {
    type V = AuditRuntimeModel;

    open spec fn view(&self) -> AuditRuntimeModel {
        AuditRuntimeModel {
            last_at_ms: self.last_at_ms,
            last_heartbeat_ms: self.last_heartbeat_ms,
            anchor: self.anchor,
            report: match self.report { Some(v) => Some(v@), None => None },
            cross_source_failures: self.cross_source_failures,
            halted: self.halted,
            halt_reason: self.halt_reason@,
            runs: self.runs,
            failures: self.failures,
            last_realign: self.last_realign,
        }
    }
}

impl Clone for AuditRuntime {
    fn clone(&self) -> (r: Self)
        ensures
            r@ == self@,
    {
        AuditRuntime {
            last_at_ms: self.last_at_ms,
            last_heartbeat_ms: self.last_heartbeat_ms,
            anchor: self.anchor,
            report: match &self.report { Some(v) => Some(v.clone()), None => None },
            cross_source_failures: self.cross_source_failures,
            halted: self.halted,
            halt_reason: self.halt_reason.clone(),
            runs: self.runs,
            failures: self.failures,
            last_realign: self.last_realign,
        }
    }
}

/// A strategy's wish to close its position on a token.
#[derive(Debug)]
pub struct StrategyExitIntent {
    pub token_id: String,
    pub reason: String,
}

/// What an exit intent says.
pub struct StrategyExitIntentModel {
    pub token_id: Seq<char>,
    pub reason: Seq<char>,
}

impl View for StrategyExitIntent {
    type V = StrategyExitIntentModel;

    open spec fn view(&self) -> StrategyExitIntentModel {
        StrategyExitIntentModel {
            token_id: self.token_id@,
            reason: self.reason@,
        }
    }
}

impl Clone for StrategyExitIntent {
    fn clone(&self) -> (r: Self)
        ensures
            r@ == self@,
    {
        StrategyExitIntent {
            token_id: self.token_id.clone(),
            reason: self.reason.clone(),
        }
    }
}

/// A position that was closed.
#[derive(Debug)]
pub struct ClosedPosition {
    pub id: String,
    pub strategy: String,
    pub asset: String,
    pub direction: SignalDirection,
    pub token_id: String,
    pub condition_id: String,
    pub entry_price: Decimal,
    pub exit_price: Decimal,
    pub shares: Decimal,
    pub entry_fee_pct: Decimal,
    pub exit_fee_pct: Decimal,
    pub net_pnl_usd: Decimal,
    pub net_pnl_pct: Decimal,
    pub exit_reason: ExitReason,
}

impl Clone for ClosedPosition {
    fn clone(&self) -> (r: Self)
        ensures
            r == *self,
    {
        ClosedPosition {
            id: self.id.clone(),
            strategy: self.strategy.clone(),
            asset: self.asset.clone(),
            direction: self.direction,
            token_id: self.token_id.clone(),
            condition_id: self.condition_id.clone(),
            entry_price: self.entry_price,
            exit_price: self.exit_price,
            shares: self.shares,
            entry_fee_pct: self.entry_fee_pct,
            exit_fee_pct: self.exit_fee_pct,
            net_pnl_usd: self.net_pnl_usd,
            net_pnl_pct: self.net_pnl_pct,
            exit_reason: self.exit_reason,
        }
    }
}

/// What a close by a fill changed, so that it can be taken back where the fill turns out to have failed.
#[derive(Debug)]
pub struct CloseCredential {
    pub trade_id: String,
    /// The position as it was before the closing fill.
    pub restored: OpenPosition,
    pub closed: ClosedPosition,
    /// The strategy's losses in a row before the close.
    pub streak_before: u32,
}

/// What a close credential says.
pub struct CloseCredentialModel {
    pub trade_id: Seq<char>,
    pub restored: OpenPosition,
    pub closed: ClosedPosition,
    pub streak_before: u32,
}

impl View for CloseCredential {
    type V = CloseCredentialModel;

    open spec fn view(&self) -> CloseCredentialModel {
        CloseCredentialModel {
            trade_id: self.trade_id@,
            restored: self.restored,
            closed: self.closed,
            streak_before: self.streak_before,
        }
    }
}

impl Clone for CloseCredential {
    fn clone(&self) -> (r: Self)
        ensures
            r@ == self@,
    {
        CloseCredential {
            trade_id: self.trade_id.clone(),
            restored: self.restored.clone(),
            closed: self.closed.clone(),
            streak_before: self.streak_before,
        }
    }
}

/// The resting orders of one token.
#[derive(Debug)]
pub struct Book {
    /// Price and size, best first.
    pub bids: Vec<(Decimal, Decimal)>,
    /// Price and size, best first.
    pub asks: Vec<(Decimal, Decimal)>,
}

/// What a book says.
pub struct OrderBookModel {
    pub bids: Seq<(Decimal, Decimal)>,
    pub asks: Seq<(Decimal, Decimal)>,
}

impl View for Book {
    type V = OrderBookModel;

    open spec fn view(&self) -> OrderBookModel {
        OrderBookModel {
            bids: self.bids@,
            asks: self.asks@,
        }
    }
}

impl Clone for Book {
    fn clone(&self) -> (r: Self)
        ensures
            r@ == self@,
    {
        Book {
            bids: model::clone_levels(&self.bids),
            asks: model::clone_levels(&self.asks),
        }
    }
}

/// The kernel's own state.
pub struct Core {
    pub config: CoreConfig,
    /// Why trading is frozen, where it is.
    pub kill_reason: Option<String>,
    pub exit_reasons: ExitReasonTable,
    pub strategy_exits: Vec<StrategyExitIntent>,
    pub stats: CoreStats,
    pub started_at_ms: i64,
    pub strategy_accounting: StrMap<StrategyAccounting>,
    /// The cooldowns of refused intents, by intent.
    pub place_cooldowns: StrMap<RejectCooldown>,
    /// The orders whose escalation was reported as skipped.
    pub escalation_skips: StrSet,
    /// The venue orders to cancel.
    pub pending_venue_cancels: Vec<String>,
    pub consecutive_venue_rejects: u32,
    pub consecutive_sweep_failures: u32,
    pub last_error: Option<LastError>,
    /// The newest external fill that was folded in.
    pub recon_watermark_ms: i64,
    pub last_self_check: Option<SelfCheckReport>,
    pub audit: AuditRuntime,
    pub settlement: SettlementBook,
    /// The free cash that the venue last reported.
    pub venue_free: Option<(i64, Decimal)>,
    /// Oldest first.
    pub close_credentials: Vec<CloseCredential>,
    pub next_id: u64,
    pub books: StrMap<Book>,
}

/// What the kernel knows.
#[verifier::ext_equal]
pub struct CoreModel {
    pub config: CoreConfigModel,
    pub kill_reason: Option<Seq<char>>,
    pub exit_reasons: ReasonsModel,
    pub strategy_exits: Seq<StrategyExitIntentModel>,
    pub stats: CoreStats,
    pub started_at_ms: i64,
    pub strategy_accounting: Map<Seq<char>, StrategyAccountingModel>,
    pub place_cooldowns: Map<Seq<char>, RejectCooldownModel>,
    pub escalation_skips: Set<Seq<char>>,
    pub pending_venue_cancels: Seq<Seq<char>>,
    pub consecutive_venue_rejects: u32,
    pub consecutive_sweep_failures: u32,
    pub last_error: Option<LastErrorModel>,
    pub recon_watermark_ms: i64,
    pub last_self_check: Option<SelfCheckReportModel>,
    pub audit: AuditRuntimeModel,
    pub settlement: settlement::BookModel,
    pub venue_free: Option<(i64, Decimal)>,
    pub close_credentials: Seq<CloseCredentialModel>,
    pub next_id: u64,
    pub books: Map<Seq<char>, OrderBookModel>,
}

impl View for Core {
    type V = CoreModel;

    open spec fn view(&self) -> CoreModel {
        CoreModel {
            config: self.config@,
            kill_reason: model::opt_text(self.kill_reason),
            exit_reasons: self.exit_reasons@,
            strategy_exits: self.strategy_exits@.map_values(|v: StrategyExitIntent| v@),
            stats: self.stats,
            started_at_ms: self.started_at_ms,
            strategy_accounting: self.strategy_accounting@,
            place_cooldowns: self.place_cooldowns@,
            escalation_skips: self.escalation_skips@,
            pending_venue_cancels: model::texts(self.pending_venue_cancels@),
            consecutive_venue_rejects: self.consecutive_venue_rejects,
            consecutive_sweep_failures: self.consecutive_sweep_failures,
            last_error: match self.last_error { Some(v) => Some(v@), None => None },
            recon_watermark_ms: self.recon_watermark_ms,
            last_self_check: match self.last_self_check { Some(v) => Some(v@), None => None },
            audit: self.audit@,
            settlement: self.settlement@,
            venue_free: self.venue_free,
            close_credentials: self.close_credentials@.map_values(|v: CloseCredential| v@),
            next_id: self.next_id,
            books: self.books@,
        }
    }
}

/// What a list of events says.
pub open spec fn events_model(events: Seq<Event>) -> Seq<EventModel> {
    events.map_values(|e: Event| e@)
}

/// A list of one event.
pub fn one_event(e: Event) -> (r: Vec<Event>)
    ensures
        events_model(r@) == seq![e@],
{
    let mut out: Vec<Event> = Vec::new();
    out.push(e);
    assert(events_model(out@) =~= seq![e@]);
    out
}

/// A list of no event.
pub fn no_event() -> (r: Vec<Event>)
    ensures
        events_model(r@) == Seq::<EventModel>::empty(),
{
    let out: Vec<Event> = Vec::new();
    assert(events_model(out@) =~= Seq::<EventModel>::empty());
    out
}

impl LastError {
    /// The error as one line of text: its code, a colon, its message.
    pub fn legacy_message(&self) -> (r: String)
        ensures
            r@ == self.code.spec_name() + ": "@ + self.message@,
    {
        let mut out = self.code.name().to_owned();
        out.append(": ");
        out.append(self.message.as_str());
        out
    }
}

impl StrategyAccounting {
    /// The accounting of a strategy that did nothing yet.
    pub fn new() -> (r: Self)
        ensures
            r@ == no_accounting(),
    {
        StrategyAccounting {
            placed: 0,
            rejected: 0,
            limit_rejected: 0,
            rejection_causes: StrMap::new(),
            closed_trades: 0,
            wins: 0,
            losses: 0,
            fees_usd: Decimal::zero(),
            net_pnl_usd: Decimal::zero(),
        }
    }
}

/// The accounting of a strategy that did nothing yet.
pub open spec fn no_accounting() -> StrategyAccountingModel {
    StrategyAccountingModel {
        placed: 0,
        rejected: 0,
        limit_rejected: 0,
        rejection_causes: Map::empty(),
        closed_trades: 0,
        wins: 0,
        losses: 0,
        fees_usd: Decimal::spec_zero(),
        net_pnl_usd: Decimal::spec_zero(),
    }
}

/// The accounting of a strategy.
pub open spec fn accounting_of(m: CoreModel, strategy: Seq<char>) -> StrategyAccountingModel {
    if m.strategy_accounting.dom().contains(strategy) {
        m.strategy_accounting[strategy]
    } else {
        no_accounting()
    }
}

/// How often a cause was counted.
pub open spec fn cause_count(causes: Map<Seq<char>, u64>, cause: Seq<char>) -> u64 {
    if causes.dom().contains(cause) {
        causes[cause]
    } else {
        0
    }
}

/// The causes with one counted once more.
pub open spec fn cause_counted(causes: Map<Seq<char>, u64>, cause: Seq<char>) -> Map<
    Seq<char>,
    u64,
> {
    causes.insert(cause, (cause_count(causes, cause) + 1) as u64)
}

/// Counts a cause once more.
pub fn count_cause(causes: &mut StrMap<u64>, cause: String)
    requires
        cause_count(old(causes)@, cause@) < u64::MAX,
    ensures
        final(causes)@ == cause_counted(old(causes)@, cause@),
{
    let n: u64 = match causes.get(cause.as_str()) {
        Some(n) => *n,
        None => 0,
    };
    causes.insert(cause, n + 1);
}

/// The cooldown of an intent.
pub open spec fn cooldown_of(m: CoreModel, internal_key: Seq<char>) -> RejectCooldownModel {
    if m.place_cooldowns.dom().contains(internal_key) {
        m.place_cooldowns[internal_key]
    } else {
        rejections::no_cooldown()
    }
}

/// A kernel that has noted an error.
pub open spec fn error_noted(m: CoreModel, code: CoreErrorCode, message: Seq<char>, now_ms: i64) -> CoreModel {
    CoreModel { last_error: Some(LastErrorModel { ts_ms: now_ms, code, message }), ..m }
}

/// A kernel that has frozen trading, unless it was frozen before.
pub open spec fn frozen(m: CoreModel, reason: Seq<char>) -> CoreModel {
    if m.kill_reason is Some {
        m
    } else {
        CoreModel { kill_reason: Some(reason), ..m }
    }
}

/// What a kernel says as it freezes trading: nothing where it was frozen before.
pub open spec fn freeze_events(m: CoreModel, reason: Seq<char>) -> Seq<EventModel> {
    if m.kill_reason is Some {
        Seq::empty()
    } else {
        seq![
            EventModel::RiskAlert {
                code: CoreErrorCode::KillSwitchActive,
                message: "trading frozen: "@ + reason,
            },
            EventModel::Error { error: model::spec_error(CoreErrorCode::KillSwitchActive, reason) },
        ]
    }
}

/// The bucket of a venue's refusal.
pub open spec fn venue_cause(code: CoreErrorCode) -> Seq<char> {
    "venue."@ + code.spec_name()
}

/// A kernel that has counted a venue's refusal of an intent, before it acts on it.
pub open spec fn refusal_counted(
    m: CoreModel,
    internal_key: Seq<char>,
    strategy: Seq<char>,
    code: CoreErrorCode,
    message: Seq<char>,
    now_ms: i64,
) -> CoreModel {
    let acc = accounting_of(m, strategy);
    CoreModel {
        stats: CoreStats { venue_rejected: (m.stats.venue_rejected + 1) as u64, ..m.stats },
        consecutive_venue_rejects: rejections::counted(m.consecutive_venue_rejects),
        last_error: Some(LastErrorModel { ts_ms: now_ms, code, message }),
        strategy_accounting: m.strategy_accounting.insert(
            strategy,
            StrategyAccountingModel {
                rejected: (acc.rejected + 1) as u64,
                rejection_causes: cause_counted(acc.rejection_causes, venue_cause(code)),
                ..acc
            },
        ),
        place_cooldowns: m.place_cooldowns.insert(
            internal_key,
            rejections::refused(cooldown_of(m, internal_key), message, now_ms),
        ),
        ..m
    }
}

/// Why a row of refusals freezes trading.
pub open spec fn refusals_reason(streak: u32, message: Seq<char>) -> Seq<char> {
    text::nat_text(streak as nat) + " consecutive venue rejections; last: "@ + message
}

/// What an operator is told of an intent that keeps bouncing.
pub open spec fn bouncing_message(
    internal_key: Seq<char>,
    attempts: u32,
    message: Seq<char>,
) -> Seq<char> {
    "placement intent "@ + internal_key + " "@ + if rejections::closes(internal_key) {
        "still retrying (close intent, backoff only) after "@ + text::nat_text(attempts as nat)
            + " venue rejections: "@ + message
    } else {
        "abandoned after "@ + text::nat_text(attempts as nat) + " venue rejections: "@ + message
    }
}

/// A kernel that has booked a venue's refusal.
pub open spec fn refusal_booked(
    m: CoreModel,
    internal_key: Seq<char>,
    strategy: Seq<char>,
    code: CoreErrorCode,
    message: Seq<char>,
    now_ms: i64,
) -> CoreModel {
    let n = refusal_counted(m, internal_key, strategy, code, message, now_ms);
    let c = n.place_cooldowns[internal_key];
    if n.consecutive_venue_rejects >= rejections::FREEZE_ON_REJECTS {
        frozen(n, refusals_reason(n.consecutive_venue_rejects, message))
    } else if c.attempts >= rejections::MAX_PLACE_ATTEMPTS {
        CoreModel {
            place_cooldowns: n.place_cooldowns.insert(
                internal_key,
                RejectCooldownModel { alerted: true, ..c },
            ),
            ..n
        }
    } else {
        n
    }
}

/// What a kernel says of a venue's refusal.
pub open spec fn refusal_events(
    m: CoreModel,
    internal_key: Seq<char>,
    strategy: Seq<char>,
    code: CoreErrorCode,
    message: Seq<char>,
    now_ms: i64,
) -> Seq<EventModel> {
    let n = refusal_counted(m, internal_key, strategy, code, message, now_ms);
    let c = n.place_cooldowns[internal_key];
    if n.consecutive_venue_rejects >= rejections::FREEZE_ON_REJECTS {
        freeze_events(n, refusals_reason(n.consecutive_venue_rejects, message))
    } else if c.attempts >= rejections::MAX_PLACE_ATTEMPTS && !c.alerted {
        seq![
            EventModel::RiskAlert {
                code: CoreErrorCode::VenueError,
                message: bouncing_message(internal_key, c.attempts, message),
            },
        ]
    } else {
        Seq::empty()
    }
}

/// The counters and clocks that a refusal moves stay in range.
pub open spec fn refusal_ok(
    m: CoreModel,
    internal_key: Seq<char>,
    strategy: Seq<char>,
    code: CoreErrorCode,
    now_ms: i64,
) -> bool {
    &&& m.stats.venue_rejected < u64::MAX
    &&& accounting_of(m, strategy).rejected < u64::MAX
    &&& cause_count(accounting_of(m, strategy).rejection_causes, venue_cause(code)) < u64::MAX
    &&& now_ms + rejections::REJECT_BACKOFF_MAX_MS <= i64::MAX
}

/// What holds of every queue of venue cancels: it is bounded, and no order is in it twice.
pub open spec fn cancels_inv(queue: Seq<Seq<char>>) -> bool {
    queue.len() <= PENDING_CANCELS_MAX && forall|i: int, j: int|
        0 <= i < j < queue.len() ==> #[trigger] queue[i] != #[trigger] queue[j]
}

impl Core {
    /// What holds of every kernel.
    pub open spec fn wf(self) -> bool {
        &&& self.exit_reasons.wf()
        &&& self.settlement.wf()
        &&& cancels_inv(self@.pending_venue_cancels)
        &&& self@.close_credentials.len() <= CLOSE_CREDENTIALS_MAX
    }

    /// Notes an error in the one place where a panel looks for it.
    pub fn note_error(&mut self, err: &CoreError, now_ms: i64)
        requires
            old(self).wf(),
        ensures
            final(self).wf(),
            final(self)@ == error_noted(old(self)@, err.code, err.message@, now_ms),
    {
        self.last_error = Some(
            LastError { ts_ms: now_ms, code: err.code, message: err.message.clone() },
        );
    }

    /// Notes an error and tells it.
    pub fn emit_error_at(&mut self, e: CoreError, now_ms: i64) -> (r: Vec<Event>)
        requires
            old(self).wf(),
        ensures
            final(self).wf(),
            final(self)@ == error_noted(old(self)@, e.code, e.message@, now_ms),
            events_model(r@) == seq![EventModel::Error { error: e@ }],
    {
        self.note_error(&e, now_ms);
        one_event(Event::Error { error: e })
    }

    /// Tells an operator something.
    pub fn emit_risk_alert(&self, code: CoreErrorCode, message: String) -> (r: Vec<Event>)
        ensures
            events_model(r@) == seq![EventModel::RiskAlert { code, message: message@ }],
    {
        one_event(Event::RiskAlert { code, message })
    }

    /// Freezes trading by hand.
    pub fn kill(&mut self, reason: String) -> (r: Vec<Event>)
        requires
            old(self).wf(),
        ensures
            final(self).wf(),
            final(self)@ == (CoreModel { kill_reason: Some(reason@), ..old(self)@ }),
            events_model(r@) == seq![
                EventModel::RiskAlert {
                    code: CoreErrorCode::KillSwitchActive,
                    message: reason@,
                },
            ],
    {
        self.kill_reason = Some(reason.clone());
        one_event(Event::RiskAlert { code: CoreErrorCode::KillSwitchActive, message: reason })
    }

    /// Resumes trading.
    pub fn resume(&mut self)
        requires
            old(self).wf(),
        ensures
            final(self).wf(),
            final(self)@ == (CoreModel { kill_reason: None, ..old(self)@ }),
    {
        self.kill_reason = None;
    }

    /// Whether trading is frozen.
    pub fn is_killed(&self) -> (r: bool)
        ensures
            r == (self@.kill_reason is Some),
    {
        self.kill_reason.is_some()
    }

    /// Freezes trading with a reason, once. The last error is left alone: it holds the cause that
    /// an operator has to act on.
    pub fn freeze_trading(&mut self, reason: String) -> (r: Vec<Event>)
        requires
            old(self).wf(),
        ensures
            final(self).wf(),
            final(self)@ == frozen(old(self)@, reason@),
            events_model(r@) == freeze_events(old(self)@, reason@),
    {
        if self.kill_reason.is_some() {
            return no_event();
        }
        self.kill_reason = Some(reason.clone());
        let message = text::join("trading frozen: ", reason.as_str());
        let mut out: Vec<Event> = Vec::new();
        out.push(Event::RiskAlert { code: CoreErrorCode::KillSwitchActive, message });
        out.push(Event::Error { error: CoreError::new(CoreErrorCode::KillSwitchActive, reason) });
        assert(events_model(out@) =~= freeze_events(old(self)@, reason@));
        out
    }

    /// Books a venue's refusal of an intent: the strategy's accounting, the intent's cooldown,
    /// the last error, and, once the refusals in a row are too many, the freeze.
    pub fn note_venue_rejection(
        &mut self,
        internal_key: &str,
        strategy: String,
        err: &CoreError,
        now_ms: i64,
    ) -> (r: Vec<Event>)
        requires
            old(self).wf(),
            refusal_ok(old(self)@, internal_key@, strategy@, err.code, now_ms),
        ensures
            final(self).wf(),
            final(self)@ == refusal_booked(
                old(self)@,
                internal_key@,
                strategy@,
                err.code,
                err.message@,
                now_ms,
            ),
            events_model(r@) == refusal_events(
                old(self)@,
                internal_key@,
                strategy@,
                err.code,
                err.message@,
                now_ms,
            ),
    {
        let ghost m = self@;
        self.stats.venue_rejected = self.stats.venue_rejected + 1;
        if self.consecutive_venue_rejects < u32::MAX {
            self.consecutive_venue_rejects = self.consecutive_venue_rejects + 1;
        }
        self.note_error(err, now_ms);
        let mut acc = match self.strategy_accounting.remove(strategy.as_str()) {
            Some(a) => a,
            None => StrategyAccounting::new(),
        };
        acc.rejected = acc.rejected + 1;
        count_cause(&mut acc.rejection_causes, text::join("venue.", err.code.name()));
        let ghost acc_model = acc@;
        self.strategy_accounting.insert(strategy, acc);
        assert(self@.strategy_accounting =~= m.strategy_accounting.insert(strategy@, acc_model));
        let mut cd = match self.place_cooldowns.remove(internal_key) {
            Some(c) => c,
            None => RejectCooldown::new(),
        };
        if cd.attempts < u32::MAX {
            cd.attempts = cd.attempts + 1;
        }
        cd.last_error = err.message.clone();
        cd.next_ok_ms = now_ms + rejections::reject_backoff_ms(cd.attempts);
        let attempts: u32 = cd.attempts;
        let alerted = cd.alerted;
        let ghost n = refusal_counted(
            m,
            internal_key@,
            strategy@,
            err.code,
            err.message@,
            now_ms,
        );
        let streak: u32 = self.consecutive_venue_rejects;
        let bouncing = streak < rejections::FREEZE_ON_REJECTS && attempts
            >= rejections::MAX_PLACE_ATTEMPTS;
        if bouncing {
            cd.alerted = true;
        }
        let ghost cd_model = cd@;
        self.place_cooldowns.insert(internal_key.to_owned(), cd);
        proof {
            assert(self@.place_cooldowns =~= m.place_cooldowns.insert(internal_key@, cd_model));
            if bouncing {
                assert(self@.place_cooldowns =~= n.place_cooldowns.insert(internal_key@, cd_model));
            } else {
                assert(self@ =~= n);
            }
        }
        if streak >= rejections::FREEZE_ON_REJECTS {
            let mut reason = text::write_u64(streak as u64);
            reason.append(" consecutive venue rejections; last: ");
            reason.append(err.message.as_str());
            return self.freeze_trading(reason);
        }
        if bouncing && !alerted {
            let mut message = "placement intent ".to_owned();
            message.append(internal_key);
            message.append(" ");
            let ghost head = message@;
            let mut status = if rejections::is_close_intent(internal_key) {
                "still retrying (close intent, backoff only) after ".to_owned()
            } else {
                "abandoned after ".to_owned()
            };
            status.append(text::write_u64(attempts as u64).as_str());
            status.append(" venue rejections: ");
            status.append(err.message.as_str());
            message.append(status.as_str());
            return one_event(Event::RiskAlert { code: CoreErrorCode::VenueError, message });
        }
        no_event()
    }

    /// Whether an intent may not be placed now. The refusal was accounted for when it happened,
    /// so callers skip without a word.
    pub fn placement_blocked(&self, internal_key: &str, now_ms: i64) -> (r: bool)
        ensures
            r == rejections::blocked(self@.place_cooldowns, internal_key@, now_ms),
    {
        match self.place_cooldowns.get(internal_key) {
            Some(c) => now_ms < c.next_ok_ms || (c.attempts >= rejections::MAX_PLACE_ATTEMPTS
                && !rejections::is_close_intent(internal_key)),
            None => false,
        }
    }
}

/// What a failed probe says.
pub open spec fn probe_text(item: SelfCheckItemModel) -> Seq<char> {
    item.name + ": "@ + item.detail
}

/// What the failed probes of a self-check say, in order.
pub open spec fn failed_probes(items: Seq<SelfCheckItemModel>) -> Seq<Seq<char>>
    decreases items.len(),
{
    if items.len() == 0 {
        Seq::empty()
    } else {
        let rest = failed_probes(items.drop_last());
        if items.last().ok {
            rest
        } else {
            rest.push(probe_text(items.last()))
        }
    }
}

/// What a failed self-check is told as.
pub open spec fn self_check_failure(items: Seq<SelfCheckItemModel>) -> Seq<char> {
    if failed_probes(items).len() == 0 {
        "trading self-check failed (venue unreachable or credentials rejected)"@
    } else {
        "trading self-check failed: "@ + text::joined(failed_probes(items), "; "@)
    }
}

/// A kernel that has taken a self-check in: a failed one is the last error, and freezes trading.
pub open spec fn self_checked(m: CoreModel, report: SelfCheckReportModel) -> CoreModel {
    let n = CoreModel { last_self_check: Some(report), ..m };
    if report.ok {
        n
    } else {
        let message = self_check_failure(report.items);
        frozen(error_noted(n, CoreErrorCode::VenueError, message, report.ts_ms), message)
    }
}

/// What a kernel says of a self-check.
pub open spec fn self_check_events(m: CoreModel, report: SelfCheckReportModel) -> Seq<EventModel> {
    if report.ok {
        Seq::empty()
    } else {
        freeze_events(m, self_check_failure(report.items))
    }
}

/// What a failed sweep is told as.
pub open spec fn sweep_failure(streak: u32, message: Seq<char>) -> Seq<char> {
    "reconciliation sweep failed ("@ + text::nat_text(streak as nat) + "): "@ + message
}

/// Why a row of failed sweeps freezes trading.
pub open spec fn sweep_reason(streak: u32, message: Seq<char>) -> Seq<char> {
    "reconciliation sweep failed "@ + text::nat_text(streak as nat) + " times in a row: "@ + message
}

/// A kernel that has counted a failed sweep.
pub open spec fn sweep_counted(
    m: CoreModel,
    code: CoreErrorCode,
    message: Seq<char>,
    now_ms: i64,
) -> CoreModel {
    let streak = rejections::counted(m.consecutive_sweep_failures);
    error_noted(
        CoreModel { consecutive_sweep_failures: streak, ..m },
        code,
        sweep_failure(streak, message),
        now_ms,
    )
}

/// A kernel that has taken a failed sweep in.
pub open spec fn sweep_failed(
    m: CoreModel,
    code: CoreErrorCode,
    message: Seq<char>,
    now_ms: i64,
) -> CoreModel {
    let n = sweep_counted(m, code, message, now_ms);
    if n.consecutive_sweep_failures >= rejections::SWEEP_FAILURE_FREEZE {
        frozen(n, sweep_reason(n.consecutive_sweep_failures, message))
    } else {
        n
    }
}

/// What a kernel says of a failed sweep.
pub open spec fn sweep_events(
    m: CoreModel,
    code: CoreErrorCode,
    message: Seq<char>,
    now_ms: i64,
) -> Seq<EventModel> {
    let n = sweep_counted(m, code, message, now_ms);
    if n.consecutive_sweep_failures >= rejections::SWEEP_FAILURE_FREEZE {
        freeze_events(n, sweep_reason(n.consecutive_sweep_failures, message))
    } else {
        Seq::empty()
    }
}

fn write_failed_probes(items: &Vec<SelfCheckItem>) -> (r: Vec<String>)
    ensures
        model::texts(r@) == failed_probes(items@.map_values(|v: SelfCheckItem| v@)),
{
    let ghost all = items@.map_values(|v: SelfCheckItem| v@);
    let mut out: Vec<String> = Vec::new();
    let mut i: usize = 0;
    proof {
        assert(all.take(0) =~= Seq::empty());
        assert(model::texts(out@) =~= Seq::empty());
    }
    while i < items.len()
        invariant
            i <= items@.len(),
            all == items@.map_values(|v: SelfCheckItem| v@),
            model::texts(out@) == failed_probes(all.take(i as int)),
        decreases items@.len() - i,
    {
        proof {
            assert(all.take(i + 1).drop_last() =~= all.take(i as int));
            assert(all.take(i + 1).last() == items@[i as int]@);
        }
        if !items[i].ok {
            let mut t = text::join(items[i].name.as_str(), ": ");
            t.append(items[i].detail.as_str());
            let ghost before = model::texts(out@);
            out.push(t);
            assert(model::texts(out@) =~= before.push(t@));
        }
        i = i + 1;
    }
    assert(all.take(i as int) =~= all);
    out
}

impl Core {
    /// Takes a trading self-check in. The probes share the venue's paths with orders, so where one
    /// fails orders cannot work either: trading is frozen.
    pub fn on_self_check(&mut self, report: SelfCheckReport) -> (r: Vec<Event>)
        requires
            old(self).wf(),
        ensures
            final(self).wf(),
            final(self)@ == self_checked(old(self)@, report@),
            events_model(r@) == self_check_events(old(self)@, report@),
    {
        let ok = report.ok;
        let ts: i64 = report.ts_ms;
        let failed = write_failed_probes(&report.items);
        self.last_self_check = Some(report);
        if ok {
            return no_event();
        }
        let message = if failed.len() == 0 {
            "trading self-check failed (venue unreachable or credentials rejected)".to_owned()
        } else {
            text::join("trading self-check failed: ", text::join_all(&failed, "; ").as_str())
        };
        self.note_error(&CoreError::new(CoreErrorCode::VenueError, message.clone()), ts);
        self.freeze_trading(message)
    }

    /// Takes a failed reconciliation sweep in. The sweep is what repairs missed fills, so a row of
    /// failures freezes trading.
    pub fn on_reconcile_failed(&mut self, err: &CoreError, now_ms: i64) -> (r: Vec<Event>)
        requires
            old(self).wf(),
        ensures
            final(self).wf(),
            final(self)@ == sweep_failed(old(self)@, err.code, err.message@, now_ms),
            events_model(r@) == sweep_events(old(self)@, err.code, err.message@, now_ms),
    {
        if self.consecutive_sweep_failures < u32::MAX {
            self.consecutive_sweep_failures = self.consecutive_sweep_failures + 1;
        }
        let streak: u32 = self.consecutive_sweep_failures;
        let mut message = "reconciliation sweep failed (".to_owned();
        message.append(text::write_u64(streak as u64).as_str());
        message.append("): ");
        message.append(err.message.as_str());
        self.note_error(&CoreError::new(err.code, message), now_ms);
        if streak >= rejections::SWEEP_FAILURE_FREEZE {
            let mut reason = "reconciliation sweep failed ".to_owned();
            reason.append(text::write_u64(streak as u64).as_str());
            reason.append(" times in a row: ");
            reason.append(err.message.as_str());
            return self.freeze_trading(reason);
        }
        no_event()
    }

    /// Takes a sweep that succeeded in: the row of failures ends.
    pub fn on_reconcile_succeeded(&mut self)
        requires
            old(self).wf(),
        ensures
            final(self).wf(),
            final(self)@ == (CoreModel { consecutive_sweep_failures: 0, ..old(self)@ }),
    {
        self.consecutive_sweep_failures = 0;
    }
}

/// Trading is frozen once and says so once: while it is frozen no refusal, failed self-check or
/// failed sweep changes the reason or alarms again.
pub proof fn law_a_freeze_is_told_once(
    m: CoreModel,
    internal_key: Seq<char>,
    strategy: Seq<char>,
    code: CoreErrorCode,
    message: Seq<char>,
    report: SelfCheckReportModel,
    now_ms: i64,
)
    requires
        m.kill_reason is Some,
    ensures
        refusal_booked(m, internal_key, strategy, code, message, now_ms).kill_reason
            == m.kill_reason,
        self_checked(m, report).kill_reason == m.kill_reason,
        self_check_events(m, report) == Seq::<EventModel>::empty(),
        sweep_failed(m, code, message, now_ms).kill_reason == m.kill_reason,
        sweep_events(m, code, message, now_ms) == Seq::<EventModel>::empty(),
        freeze_events(m, message) == Seq::<EventModel>::empty(),
{
}

/// Sweeps that fail one after the other freeze trading at the threshold and not before, and one
/// that succeeds starts the count anew.
pub proof fn law_failed_sweeps_freeze_at_the_threshold(
    m: CoreModel,
    code: CoreErrorCode,
    message: Seq<char>,
    now_ms: i64,
)
    requires
        m.kill_reason is None,
    ensures
        sweep_failed(m, code, message, now_ms).kill_reason is Some
            <==> m.consecutive_sweep_failures + 1 >= rejections::SWEEP_FAILURE_FREEZE,
        sweep_failed(
            CoreModel { consecutive_sweep_failures: 0, ..m },
            code,
            message,
            now_ms,
        ).kill_reason is None,
{
}

/// Refusals one after the other freeze trading at the threshold and not before.
pub proof fn law_refusals_freeze_at_the_threshold(
    m: CoreModel,
    internal_key: Seq<char>,
    strategy: Seq<char>,
    code: CoreErrorCode,
    message: Seq<char>,
    now_ms: i64,
)
    requires
        m.kill_reason is None,
    ensures
        refusal_booked(m, internal_key, strategy, code, message, now_ms).kill_reason is Some
            <==> m.consecutive_venue_rejects + 1 >= rejections::FREEZE_ON_REJECTS,
{
}

/// A refusal pauses its own intent alone.
pub proof fn law_a_refusal_pauses_only_its_intent(
    m: CoreModel,
    internal_key: Seq<char>,
    other_key: Seq<char>,
    strategy: Seq<char>,
    code: CoreErrorCode,
    message: Seq<char>,
    now_ms: i64,
    later_ms: i64,
)
    requires
        internal_key != other_key,
        now_ms <= later_ms,
    ensures
        rejections::blocked(
            refusal_booked(m, internal_key, strategy, code, message, now_ms).place_cooldowns,
            other_key,
            later_ms,
        ) == rejections::blocked(m.place_cooldowns, other_key, later_ms),
        now_ms + rejections::REJECT_BACKOFF_MAX_MS <= i64::MAX ==> rejections::blocked(
            refusal_booked(m, internal_key, strategy, code, message, now_ms).place_cooldowns,
            internal_key,
            now_ms,
        ),
{
    let n = refusal_counted(m, internal_key, strategy, code, message, now_ms);
    let after = refusal_booked(m, internal_key, strategy, code, message, now_ms);
    assert(after.place_cooldowns.dom().contains(other_key)
        == m.place_cooldowns.dom().contains(other_key));
    rejections::law_the_spacing_grows_to_its_ceiling(
        n.place_cooldowns[internal_key].attempts,
        n.place_cooldowns[internal_key].attempts,
    );
}

/// What a strategy was refused is counted for it alone.
pub proof fn law_a_refusal_is_charged_to_its_strategy(
    m: CoreModel,
    internal_key: Seq<char>,
    strategy: Seq<char>,
    other: Seq<char>,
    code: CoreErrorCode,
    message: Seq<char>,
    now_ms: i64,
)
    requires
        strategy != other,
    ensures
        accounting_of(
            refusal_booked(m, internal_key, strategy, code, message, now_ms),
            other,
        ) == accounting_of(m, other),
        refusal_ok(m, internal_key, strategy, code, now_ms) ==> accounting_of(
            refusal_booked(m, internal_key, strategy, code, message, now_ms),
            strategy,
        ).rejected == accounting_of(m, strategy).rejected + 1,
{
}

} // verus!
