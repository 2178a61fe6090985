//! Starting a kernel, taking back up what an earlier one left, and turning the day.
use vstd::prelude::*;
use vstd::string::*;

use crate::audit;
use crate::config::{CoreConfig, CoreConfigModel};
use crate::decimal;
use crate::decimal::Decimal;
use crate::exit_reasons::ExitReasonTable;
use crate::exits;
use crate::model;
use crate::model::{
    CoreErrorCode, EquityBasis, Event, EventModel, Mode, Side, TrackedOrder, TrackedOrderModel,
};
use crate::service;
use crate::service::{
    AuditRuntime, AuditRuntimeModel, Core, CoreModel, CoreStats,
};
use crate::settlement;
use crate::settlement::{JournalLine, SettlementBook};
use crate::str_map::{StrMap, StrSet};
use crate::text;

verus! {

// ---------------------------------------------------------------------------------------------
// Starting

/// Where a log is kept that belongs beside the order log: where the settings say, or beside the
/// order log, and nowhere where there is no order log.
pub open spec fn side_log(
    explicit: Option<Seq<char>>,
    order_log: Option<Seq<char>>,
    beside: Option<Seq<char>>,
) -> Option<Seq<char>> {
    if explicit is Some {
        explicit
    } else if order_log is Some {
        beside
    } else {
        None
    }
}

/// Picks where a log is kept that belongs beside the order log.
pub fn side_log_path(
    explicit: &Option<String>,
    order_log: &Option<String>,
    beside: Option<String>,
) -> (r: Option<String>)
    ensures
        model::opt_text(r) == side_log(
            model::opt_text(*explicit),
            model::opt_text(*order_log),
            model::opt_text(beside),
        ),
{
    match explicit {
        Some(p) => Some(p.clone()),
        None => match order_log {
            Some(_) => beside,
            None => None,
        },
    }
}

/// An audit that has not run.
pub open spec fn no_audit() -> AuditRuntimeModel {
    AuditRuntimeModel {
        last_at_ms: 0,
        last_heartbeat_ms: 0,
        anchor: None,
        report: None,
        cross_source_failures: 0,
        halted: false,
        halt_reason: Seq::empty(),
        runs: 0,
        failures: 0,
        last_realign: None,
    }
}

/// Counters that have counted nothing.
pub open spec fn no_stats() -> CoreStats {
    CoreStats {
        books: 0,
        tops: 0,
        spots: 0,
        rounds: 0,
        evaluations: 0,
        signals: 0,
        place_rejected: 0,
        strategy_limit_rejected: 0,
        venue_rejected: 0,
    }
}

/// A kernel that has just started, over what its settlement journal tells.
pub open spec fn started(
    config: CoreConfigModel,
    settlement: settlement::BookModel,
    now_ms: i64,
) -> CoreModel {
    CoreModel {
        config,
        kill_reason: None,
        exit_reasons: crate::exit_reasons::ReasonsModel {
            entries: Seq::empty(),
            evicted: 0,
            swept: 0,
        },
        strategy_exits: Seq::empty(),
        stats: no_stats(),
        started_at_ms: now_ms,
        strategy_accounting: Map::empty(),
        place_cooldowns: Map::empty(),
        escalation_skips: Set::empty(),
        pending_venue_cancels: Seq::empty(),
        consecutive_venue_rejects: 0,
        consecutive_sweep_failures: 0,
        last_error: None,
        recon_watermark_ms: 0,
        last_self_check: None,
        audit: no_audit(),
        settlement,
        venue_free: None,
        close_credentials: Seq::empty(),
        next_id: 1,
        books: Map::empty(),
    }
}

/// The cash that a kernel starts with: the seed where it settles by itself, and what the venue will
/// report where it does not.
pub open spec fn seed(c: CoreConfigModel) -> Option<Decimal> {
    if c.mode.is_local() {
        Some(c.dry_seed_balance)
    } else {
        None
    }
}

impl Core {
    /// A kernel that starts now, over the lines of its settlement journal where it keeps one.
    pub fn new(config: CoreConfig, journal: Option<Vec<JournalLine>>, now_ms: i64) -> (r: Self)
        requires
            journal matches Some(lines) ==> settlement::replay_all_ok(
                settlement::empty_book(true),
                settlement::lines_model(lines@),
            ),
        ensures
            r.wf(),
            r@ == started(
                config@,
                match journal {
                    Some(lines) => settlement::replayed_all(
                        settlement::empty_book(true),
                        settlement::lines_model(lines@),
                    ),
                    None => settlement::empty_book(false),
                },
                now_ms,
            ),
    {
        let r = Core {
            config,
            kill_reason: None,
            exit_reasons: ExitReasonTable::new(),
            strategy_exits: Vec::new(),
            stats: CoreStats {
                books: 0,
                tops: 0,
                spots: 0,
                rounds: 0,
                evaluations: 0,
                signals: 0,
                place_rejected: 0,
                strategy_limit_rejected: 0,
                venue_rejected: 0,
            },
            started_at_ms: now_ms,
            strategy_accounting: StrMap::new(),
            place_cooldowns: StrMap::new(),
            escalation_skips: StrSet::new(),
            pending_venue_cancels: Vec::new(),
            consecutive_venue_rejects: 0,
            consecutive_sweep_failures: 0,
            last_error: None,
            recon_watermark_ms: 0,
            last_self_check: None,
            audit: AuditRuntime {
                last_at_ms: 0,
                last_heartbeat_ms: 0,
                anchor: None,
                report: None,
                cross_source_failures: 0,
                halted: false,
                halt_reason: String::new(),
                runs: 0,
                failures: 0,
                last_realign: None,
            },
            settlement: SettlementBook::new(journal),
            venue_free: None,
            close_credentials: Vec::new(),
            next_id: 1,
            books: StrMap::new(),
        };
        proof {
            assert(r.audit.halt_reason@ =~= Seq::<char>::empty());
            assert(r@.strategy_exits =~= Seq::empty());
            assert(r@.pending_venue_cancels =~= Seq::empty());
            assert(r@.close_credentials =~= Seq::empty());
        }
        r
    }

    /// The cash that the kernel starts with, where it is not the venue that says.
    pub fn opening_cash(&self) -> (r: Option<Decimal>)
        ensures
            r == seed(self@.config),
    {
        if self.config.mode.settles_locally() {
            Some(self.config.dry_seed_balance)
        } else {
            None
        }
    }

    /// How the kernel runs.
    pub fn mode(&self) -> (r: Mode)
        ensures
            r == self@.config.mode,
    {
        self.config.mode
    }

    /// When the kernel's session began.
    pub fn started_at_ms(&self) -> (r: i64)
        ensures
            r == self@.started_at_ms,
    {
        self.started_at_ms
    }

    /// The kernel's settings.
    pub fn config(&self) -> (r: &CoreConfig)
        ensures
            r@ == self@.config,
    {
        &self.config
    }

    /// Which book the kernel's equity is taken from: its own simulation where it settles by itself,
    /// and the venue's where it does not.
    pub fn equity_basis(&self) -> (r: EquityBasis)
        ensures
            r == if self@.config.mode.is_local() {
                EquityBasis::Dry
            } else {
                EquityBasis::Live
            },
    {
        if self.config.mode.settles_locally() {
            EquityBasis::Dry
        } else {
            EquityBasis::Live
        }
    }
}

/// A kernel that starts over the journal of one before it is owed what that one was owed, and is
/// not frozen, halted or blocked.
pub proof fn law_a_start_owes_what_the_journal_tells(
    config: CoreConfigModel,
    book: settlement::BookModel,
    now_ms: i64,
)
    ensures
        settlement::owed(started(config, book, now_ms).settlement) == settlement::owed(book),
        started(config, book, now_ms).kill_reason is None,
        audit::audit_refusal(started(config, book, now_ms)) is None,
{
}

// ---------------------------------------------------------------------------------------------
// Taking up what was left

/// The orders that still work.
pub open spec fn working(orders: Seq<TrackedOrderModel>) -> Seq<TrackedOrderModel>
    decreases orders.len(),
{
    if orders.len() == 0 {
        Seq::empty()
    } else {
        let rest = working(orders.drop_last());
        if orders.last().live {
            rest.push(orders.last())
        } else {
            rest
        }
    }
}

/// What each buy among working orders still has to reserve.
pub open spec fn reservations(orders: Seq<TrackedOrderModel>) -> Seq<(Seq<char>, Decimal)> {
    audit::live_buys(orders).map_values(
        |o: TrackedOrderModel| (o.order_id, audit::commitment(o)),
    )
}

/// The orders that a kernel takes up again.
#[derive(Debug)]
pub struct RestoredOrders {
    pub live: Vec<TrackedOrder>,
    /// What each of them reserves again, by order.
    pub reservations: Vec<(String, Decimal)>,
    pub events: Vec<Event>,
}

/// What an operator is told of the fills that are known again.
pub open spec fn applied_text(n: usize, path: Seq<char>) -> Seq<char> {
    "restored "@ + text::nat_text(n as nat) + " applied-fill key(s) from "@ + path
        + " after restart (duplicate venue trades stay idempotent)"@
}

/// What an operator is told of the orders that are taken up again.
pub open spec fn orders_text(n: nat, notional: Decimal) -> Seq<char> {
    "recovered "@ + text::nat_text(n) + " live order(s) from the order log after restart ("@
        + decimal::text_of(notional) + " of BUY notional re-reserved)"@
}

/// What an operator is told of a position book that is taken up again.
pub open spec fn positions_text(n: usize) -> Seq<char> {
    "recovered "@ + text::nat_text(n as nat)
        + " open position(s) from the position log after restart"@
}

/// What a kernel says of the orders that it takes up again.
pub open spec fn restore_events(
    applied: usize,
    path: Seq<char>,
    loaded: Seq<TrackedOrderModel>,
) -> Seq<EventModel> {
    let first = if applied > 0 {
        seq![
            EventModel::RiskAlert {
                code: CoreErrorCode::Internal,
                message: applied_text(applied, path),
            },
        ]
    } else {
        Seq::empty()
    };
    if working(loaded).len() > 0 {
        first.push(
            EventModel::RiskAlert {
                code: CoreErrorCode::Internal,
                message: orders_text(
                    working(loaded).len(),
                    decimal::total(audit::commitments(audit::live_buys(loaded))),
                ),
            },
        )
    } else {
        first
    }
}

fn collect_working(orders: &Vec<TrackedOrder>) -> (r: Vec<TrackedOrder>)
    ensures
        exits::orders_model(r@) == working(exits::orders_model(orders@)),
{
    let ghost all = exits::orders_model(orders@);
    let mut out: Vec<TrackedOrder> = Vec::new();
    let mut i: usize = 0;
    proof {
        assert(all.take(0) =~= Seq::empty());
        assert(exits::orders_model(out@) =~= Seq::empty());
    }
    while i < orders.len()
        invariant
            i <= orders@.len(),
            all == exits::orders_model(orders@),
            exits::orders_model(out@) == working(all.take(i as int)),
        decreases orders@.len() - i,
    {
        let o = &orders[i];
        proof {
            assert(all.take(i + 1).drop_last() =~= all.take(i as int));
            assert(all.take(i + 1).last() == o@);
        }
        if o.live {
            let ghost before = exits::orders_model(out@);
            let c = o.clone();
            out.push(c);
            assert(exits::orders_model(out@) =~= before.push(o@));
        }
        i = i + 1;
    }
    assert(all.take(i as int) =~= all);
    out
}

fn collect_reservations(orders: &Vec<TrackedOrder>) -> (r: (Vec<(String, Decimal)>, Vec<Decimal>))
    requires
        audit::commitments_ok(audit::live_buys(exits::orders_model(orders@))),
    ensures
        audit::reservation_rows(r.0@) == reservations(exits::orders_model(orders@)),
        r.1@ == audit::commitments(audit::live_buys(exits::orders_model(orders@))),
{
    let ghost all = exits::orders_model(orders@);
    let mut out: Vec<(String, Decimal)> = Vec::new();
    let mut terms: Vec<Decimal> = Vec::new();
    let mut i: usize = 0;
    proof {
        assert(all.take(0) =~= Seq::empty());
        assert(audit::reservation_rows(out@) =~= reservations(all.take(0)));
        assert(terms@ =~= audit::commitments(audit::live_buys(all.take(0))));
    }
    while i < orders.len()
        invariant
            i <= orders@.len(),
            all == exits::orders_model(orders@),
            audit::commitments_ok(audit::live_buys(all)),
            audit::reservation_rows(out@) == reservations(all.take(i as int)),
            terms@ == audit::commitments(audit::live_buys(all.take(i as int))),
        decreases orders@.len() - i,
    {
        let o = &orders[i];
        let ghost before = audit::live_buys(all.take(i as int));
        let ghost rows = audit::reservation_rows(out@);
        proof {
            assert(all.take(i + 1).drop_last() =~= all.take(i as int));
            assert(all.take(i + 1).last() == o@);
            audit::lemma_live_buys_prefix(all, i + 1);
        }
        if o.live && o.side == Side::Buy {
            proof {
                assert(before.push(o@) == audit::live_buys(all.take(i + 1)));
                assert(audit::live_buys(all)[before.len() as int] == o@);
            }
            let amount = o.price.times(audit::left_to_fill(o));
            let id = o.order_id.clone();
            out.push((id, amount));
            terms.push(amount);
            proof {
                assert(audit::reservation_rows(out@) =~= rows.push((o@.order_id, amount)));
                assert(reservations(all.take(i + 1)) =~= rows.push((o@.order_id, amount)));
                assert(audit::commitments(before.push(o@)) =~= audit::commitments(before).push(
                    amount,
                ));
            }
        }
        i = i + 1;
    }
    assert(all.take(i as int) =~= all);
    (out, terms)
}

impl Core {
    /// Takes up the orders that an earlier kernel left: those that still work, with what their buys
    /// still commit reserved again. Without that the next entries would spend it twice. The fills
    /// that were known are known again, so that one that the venue tells once more is not booked
    /// once more.
    pub fn restore_orders(
        &self,
        applied: usize,
        applied_path: &str,
        loaded: &Vec<TrackedOrder>,
    ) -> (r: RestoredOrders)
        requires
            audit::commitments_ok(audit::live_buys(exits::orders_model(loaded@))),
        ensures
            exits::orders_model(r.live@) == working(exits::orders_model(loaded@)),
            audit::reservation_rows(r.reservations@) == reservations(
                exits::orders_model(loaded@),
            ),
            service::events_model(r.events@) == restore_events(
                applied,
                applied_path@,
                exits::orders_model(loaded@),
            ),
    {
        let live = collect_working(loaded);
        let (reserved, terms) = collect_reservations(loaded);
        let mut events = service::no_event();
        if applied > 0 {
            let mut message = text::join("restored ", text::write_u64(applied as u64).as_str());
            message.append(" applied-fill key(s) from ");
            message.append(applied_path);
            message.append(" after restart (duplicate venue trades stay idempotent)");
            events = self.emit_risk_alert(CoreErrorCode::Internal, message);
        }
        assert(live@.len() == working(exits::orders_model(loaded@)).len());
        if live.len() > 0 {
            let ghost before = service::events_model(events@);
            let mut message = text::join("recovered ", text::write_u64(live.len() as u64).as_str());
            message.append(" live order(s) from the order log after restart (");
            message.append(decimal::sum_of(&terms).text().as_str());
            message.append(" of BUY notional re-reserved)");
            let e = Event::RiskAlert { code: CoreErrorCode::Internal, message };
            events.push(e);
            assert(service::events_model(events@) =~= before.push(e@));
        }
        RestoredOrders { live, reservations: reserved, events }
    }

    /// Takes up the position book that an earlier kernel left: the mark of the trades that were
    /// folded in, which outlives the positions, and what is told of the positions.
    pub fn restore_positions(&mut self, watermark_ms: i64, loaded: usize) -> (r: Vec<Event>)
        requires
            old(self).wf(),
        ensures
            final(self).wf(),
            final(self)@ == (CoreModel { recon_watermark_ms: watermark_ms, ..old(self)@ }),
            service::events_model(r@) == if loaded > 0 {
                seq![
                    EventModel::RiskAlert {
                        code: CoreErrorCode::Internal,
                        message: positions_text(loaded),
                    },
                ]
            } else {
                Seq::empty()
            },
    {
        self.recon_watermark_ms = watermark_ms;
        if loaded == 0 {
            return service::no_event();
        }
        let mut message = text::join("recovered ", text::write_u64(loaded as u64).as_str());
        message.append(" open position(s) from the position log after restart");
        self.emit_risk_alert(CoreErrorCode::Internal, message)
    }

    /// Tells of a venue order that nobody knew and that was cancelled.
    pub fn note_orphan_cancelled(&self, venue_order_id: &str) -> (r: Vec<Event>)
        ensures
            service::events_model(r@) == seq![
                EventModel::RiskAlert {
                    code: CoreErrorCode::Internal,
                    message: "cancelled resting venue order "@ + venue_order_id@,
                },
            ],
    {
        self.emit_risk_alert(
            CoreErrorCode::Internal,
            text::join("cancelled resting venue order ", venue_order_id),
        )
    }
}

// ---------------------------------------------------------------------------------------------
// The day's loss budget

/// A day of the loss budget that has begun.
#[derive(Clone, Copy, Debug)]
pub struct DailyRoll {
    pub previous_day_index: Option<i64>,
    pub previous_realized_pnl_usd: Decimal,
    /// Whether entries were frozen on the day before.
    pub previous_tripped: bool,
    pub day_index: i64,
    pub opening_equity_usd: Decimal,
    pub limit_usd: Decimal,
}

/// A day's loss budget that was used up.
#[derive(Clone, Copy, Debug)]
pub struct DailyTrip {
    pub realized_pnl_usd: Decimal,
    pub limit_usd: Decimal,
    pub opening_equity_usd: Decimal,
}

/// What an operator is told of a day that begins.
pub open spec fn roll_text(x: DailyRoll) -> Seq<char> {
    match x.previous_day_index {
        Some(prev) => "daily loss budget: UTC day "@ + text::int_text(prev as int) + " closed at $"@
            + decimal::text_of(x.previous_realized_pnl_usd) + " realized"@ + if x.previous_tripped {
            " (TRIPPED: entries were frozen)"@
        } else {
            ""@
        } + " — day "@ + text::int_text(x.day_index as int) + " opens with equity $"@
            + decimal::text_of(x.opening_equity_usd) + ", cap $"@ + decimal::text_of(x.limit_usd),
        None => "daily loss budget: UTC day "@ + text::int_text(x.day_index as int)
            + " opens with equity $"@ + decimal::text_of(x.opening_equity_usd) + ", cap $"@
            + decimal::text_of(x.limit_usd)
            + " (realized loss resets at the UTC day boundary)"@,
    }
}

/// What an operator is told of a budget that was used up.
pub open spec fn trip_text(c: CoreConfigModel, x: DailyTrip) -> Seq<char> {
    "DAILY LOSS LIMIT REACHED: realized $"@ + decimal::text_of(x.realized_pnl_usd) + " against a $"@
        + decimal::text_of(x.limit_usd) + " cap ("@ + decimal::text_of(
        c.positions.max_daily_loss_equity_pct,
    ) + "% of the day's opening equity $"@ + decimal::text_of(x.opening_equity_usd)
        + ") — new entries are frozen until the next UTC day (positions still exit normally)"@
}

/// What a kernel says of a budget that was used up.
pub open spec fn trip_events(c: CoreConfigModel, trip: Option<DailyTrip>) -> Seq<EventModel> {
    match trip {
        Some(x) => seq![
            EventModel::RiskAlert { code: CoreErrorCode::RiskRejected, message: trip_text(c, x) },
        ],
        None => Seq::empty(),
    }
}

impl Core {
    /// Tells of a day that begins.
    pub fn roll_daily_budget(&self, roll: Option<DailyRoll>) -> (r: Vec<Event>)
        ensures
            service::events_model(r@) == match roll {
                Some(x) => seq![
                    EventModel::RiskAlert {
                        code: CoreErrorCode::RiskRejected,
                        message: roll_text(x),
                    },
                ],
                None => Seq::empty(),
            },
    {
        match roll {
            None => service::no_event(),
            Some(x) => {
                let mut message = "daily loss budget: UTC day ".to_owned();
                match x.previous_day_index {
                    Some(prev) => {
                        message.append(text::write_i64(prev).as_str());
                        message.append(" closed at $");
                        message.append(x.previous_realized_pnl_usd.text().as_str());
                        message.append(" realized");
                        message.append(
                            if x.previous_tripped {
                                " (TRIPPED: entries were frozen)"
                            } else {
                                ""
                            },
                        );
                        message.append(" — day ");
                        message.append(text::write_i64(x.day_index).as_str());
                        message.append(" opens with equity $");
                        message.append(x.opening_equity_usd.text().as_str());
                        message.append(", cap $");
                        message.append(x.limit_usd.text().as_str());
                    },
                    None => {
                        message.append(text::write_i64(x.day_index).as_str());
                        message.append(" opens with equity $");
                        message.append(x.opening_equity_usd.text().as_str());
                        message.append(", cap $");
                        message.append(x.limit_usd.text().as_str());
                        message.append(" (realized loss resets at the UTC day boundary)");
                    },
                }
                self.emit_risk_alert(CoreErrorCode::RiskRejected, message)
            },
        }
    }

    /// Tells of a day's loss budget that was used up.
    pub fn emit_daily_trip(&self, trip: Option<DailyTrip>) -> (r: Vec<Event>)
        ensures
            service::events_model(r@) == trip_events(self@.config, trip),
    {
        match trip {
            None => service::no_event(),
            Some(x) => {
                let mut message = "DAILY LOSS LIMIT REACHED: realized $".to_owned();
                message.append(x.realized_pnl_usd.text().as_str());
                message.append(" against a $");
                message.append(x.limit_usd.text().as_str());
                message.append(" cap (");
                message.append(self.config.positions.max_daily_loss_equity_pct.text().as_str());
                message.append("% of the day's opening equity $");
                message.append(x.opening_equity_usd.text().as_str());
                message.append(
                    ") — new entries are frozen until the next UTC day (positions still exit normally)",
                );
                self.emit_risk_alert(CoreErrorCode::RiskRejected, message)
            },
        }
    }

    /// Tells of exits that were held back, one by one: that one should have come must not go
    /// unseen.
    pub fn emit_suppressed_stops(&self, messages: Vec<String>) -> (r: Vec<Event>)
        ensures
            service::events_model(r@) == model::texts(messages@).map_values(
                |m: Seq<char>|
                    EventModel::RiskAlert { code: CoreErrorCode::RiskRejected, message: m },
            ),
    {
        let mut out: Vec<Event> = Vec::new();
        let mut i: usize = 0;
        while i < messages.len()
            invariant
                i <= messages@.len(),
                out@.len() == i,
                forall|j: int|
                    0 <= j < i ==> (#[trigger] out@[j])@ == (EventModel::RiskAlert {
                        code: CoreErrorCode::RiskRejected,
                        message: messages@[j]@,
                    }),
            decreases messages@.len() - i,
        {
            out.push(
                Event::RiskAlert {
                    code: CoreErrorCode::RiskRejected,
                    message: messages[i].clone(),
                },
            );
            i = i + 1;
        }
        assert(service::events_model(out@) =~= model::texts(messages@).map_values(
            |m: Seq<char>| EventModel::RiskAlert { code: CoreErrorCode::RiskRejected, message: m },
        ));
        out
    }

    /// Tells that a strategy's breaker has run out.
    pub fn tell_breaker_resumed(&self, strategy: &str) -> (r: Vec<Event>)
        ensures
            service::events_model(r@) == seq![
                EventModel::RiskAlert {
                    code: CoreErrorCode::RiskRejected,
                    message: "breaker cooldown elapsed — resuming new entries for strategy "@
                        + strategy@,
                },
            ],
    {
        self.emit_risk_alert(
            CoreErrorCode::RiskRejected,
            text::join("breaker cooldown elapsed — resuming new entries for strategy ", strategy),
        )
    }
}

// ---------------------------------------------------------------------------------------------
// Asking beforehand

impl Core {
    /// Starts a kernel, where the journal that an earlier one left can be taken in.
    pub fn checked_new(config: CoreConfig, journal: Option<Vec<JournalLine>>, now_ms: i64) -> (r: Option<
        Self,
    >)
        ensures
            match r {
                Some(core) => {
                    &&& core.wf()
                    &&& core@ == started(
                        config@,
                        match journal {
                            Some(lines) => settlement::replayed_all(
                                settlement::empty_book(true),
                                settlement::lines_model(lines@),
                            ),
                            None => settlement::empty_book(false),
                        },
                        now_ms,
                    )
                },
                None => journal matches Some(lines) && !settlement::replay_all_ok(
                    settlement::empty_book(true),
                    settlement::lines_model(lines@),
                ),
            },
    {
        if let Some(lines) = &journal {
            if !SettlementBook::journal_fits(lines) {
                return None;
            }
        }
        Some(Core::new(config, journal, now_ms))
    }

    /// Takes up the orders that an earlier kernel left, where what their buys commit stays in range.
    pub fn checked_restore_orders(
        &self,
        applied: usize,
        applied_path: &str,
        loaded: &Vec<TrackedOrder>,
    ) -> (r: Option<RestoredOrders>)
        ensures
            match r {
                Some(x) => {
                    &&& exits::orders_model(x.live@) == working(exits::orders_model(loaded@))
                    &&& audit::reservation_rows(x.reservations@) == reservations(
                        exits::orders_model(loaded@),
                    )
                    &&& service::events_model(x.events@) == restore_events(
                        applied,
                        applied_path@,
                        exits::orders_model(loaded@),
                    )
                },
                None => !audit::commitments_ok(audit::live_buys(exits::orders_model(loaded@))),
            },
    {
        if audit::commitments_fit(loaded) {
            Some(self.restore_orders(applied, applied_path, loaded))
        } else {
            None
        }
    }
}

} // verus!
