//! The kernel's maintenance pass, and what a sweep against the venue comes to.
use vstd::prelude::*;
use vstd::string::*;

use crate::audit;
use crate::decimal::Decimal;
use crate::model;
use crate::model::{
    CoreError, CoreErrorCode, Event, EventModel, Side, TrackedOrder,
};
use crate::orders;
use crate::service;
use crate::service::{Core, CoreModel};

verus! {

// ---------------------------------------------------------------------------------------------
// The maintenance pass

/// A step of the maintenance pass.
#[derive(Clone, Copy, Debug, PartialEq, Eq, Structural)]
pub enum TickStep {
    /// Write the market-data archive out, at most once a second.
    FlushArchive,
    /// Apply the fills that came before their orders.
    RetryFills,
    /// Settle what the kernel itself has to settle.
    Settle,
    /// Tell that the venue's verdicts fail to come.
    TellSilence,
    /// Hold the books against each other.
    Audit,
    /// Let strategies enter again whose breaker has cooled down.
    ResumeEntries,
    /// Write the entries down that gates stopped.
    SaveNearMisses,
    /// Begin a new day's loss budget where the day is over.
    RollDay,
    /// Tell that the day's budget is spent.
    TellTrip,
    /// Close what is to be closed.
    CheckExits,
    /// Tell of the stops that were withheld.
    TellWithheldStops,
    /// Cross the book with the orders that rested for too long.
    Escalate,
}

/// A step that is taken or left out.
pub open spec fn taken(step: TickStep, takes: bool) -> Seq<TickStep> {
    if takes {
        seq![step]
    } else {
        Seq::empty()
    }
}

/// The steps before the day's budget is looked at.
pub open spec fn early_steps(m: CoreModel, now_ms: i64) -> Seq<TickStep> {
    Seq::empty() + taken(TickStep::FlushArchive, m.config.event_archive_path is Some) + taken(
        TickStep::RetryFills,
        true,
    ) + taken(TickStep::Settle, m.config.mode.is_local()) + taken(TickStep::TellSilence, true)
        + taken(TickStep::Audit, audit::is_due(m, now_ms)) + taken(TickStep::ResumeEntries, true)
        + taken(TickStep::SaveNearMisses, m.config.near_miss_path is Some)
}

/// The steps from the day's budget on.
pub open spec fn late_steps() -> Seq<TickStep> {
    seq![
        TickStep::RollDay,
        TickStep::TellTrip,
        TickStep::CheckExits,
        TickStep::TellWithheldStops,
        TickStep::Escalate,
    ]
}

/// The steps of a maintenance pass, in order.
pub open spec fn tick_steps(m: CoreModel, now_ms: i64) -> Seq<TickStep> {
    early_steps(m, now_ms) + late_steps()
}

fn push_if(steps: &mut Vec<TickStep>, step: TickStep, takes: bool)
    ensures
        final(steps)@ == old(steps)@ + taken(step, takes),
{
    if takes {
        steps.push(step);
    }
    assert(steps@ =~= old(steps)@ + taken(step, takes));
}

fn push_late(steps: &mut Vec<TickStep>)
    ensures
        final(steps)@ == old(steps)@ + late_steps(),
{
    steps.push(TickStep::RollDay);
    steps.push(TickStep::TellTrip);
    steps.push(TickStep::CheckExits);
    steps.push(TickStep::TellWithheldStops);
    steps.push(TickStep::Escalate);
    assert(steps@ =~= old(steps)@ + late_steps());
}

impl Core {
    /// The steps of a maintenance pass, in order. Settlements come before the audit, so that the
    /// money they move is accounted for in the same pass, and the day's budget before the exits, so
    /// that a close on a new day counts for that day.
    pub fn tick(&self, now_ms: i64) -> (r: Vec<TickStep>)
        ensures
            r@ == tick_steps(self@, now_ms),
    {
        let mut out: Vec<TickStep> = Vec::new();
        push_if(&mut out, TickStep::FlushArchive, self.config.event_archive_path.is_some());
        push_if(&mut out, TickStep::RetryFills, true);
        push_if(&mut out, TickStep::Settle, self.config.mode.settles_locally());
        push_if(&mut out, TickStep::TellSilence, true);
        push_if(&mut out, TickStep::Audit, self.audit_due(now_ms));
        push_if(&mut out, TickStep::ResumeEntries, true);
        push_if(&mut out, TickStep::SaveNearMisses, self.config.near_miss_path.is_some());
        push_late(&mut out);
        out
    }
}

proof fn lemma_early_steps(m: CoreModel, now_ms: i64)
    ensures
        forall|i: int|
            0 <= i < early_steps(m, now_ms).len() ==> (#[trigger] early_steps(m, now_ms)[i])
                != TickStep::RollDay && early_steps(m, now_ms)[i] != TickStep::CheckExits,
{
}

/// Whatever the mode and the settings, a pass takes the exits in after it has begun the day's
/// budget, and each of the two once.
pub proof fn law_the_day_rolls_before_the_exits(m: CoreModel, now_ms: i64, i: int, j: int)
    requires
        0 <= i < tick_steps(m, now_ms).len(),
        0 <= j < tick_steps(m, now_ms).len(),
        tick_steps(m, now_ms)[i] == TickStep::RollDay,
        tick_steps(m, now_ms)[j] == TickStep::CheckExits,
    ensures
        i < j,
        forall|k: int|
            0 <= k < tick_steps(m, now_ms).len() && (#[trigger] tick_steps(m, now_ms)[k])
                == TickStep::RollDay ==> k == i,
        forall|k: int|
            0 <= k < tick_steps(m, now_ms).len() && (#[trigger] tick_steps(m, now_ms)[k])
                == TickStep::CheckExits ==> k == j,
{
    lemma_early_steps(m, now_ms);
    let n = early_steps(m, now_ms).len();
    let s = tick_steps(m, now_ms);
    assert forall|k: int| 0 <= k < s.len() && (#[trigger] s[k]) == TickStep::RollDay implies k
        == n by {
        if k < n {
            assert(s[k] == early_steps(m, now_ms)[k]);
        } else {
            assert(s[k] == late_steps()[k - n]);
        }
    }
    assert forall|k: int| 0 <= k < s.len() && (#[trigger] s[k]) == TickStep::CheckExits implies k
        == n + 2 by {
        if k < n {
            assert(s[k] == early_steps(m, now_ms)[k]);
        } else {
            assert(s[k] == late_steps()[k - n]);
        }
    }
}

/// The money that a settlement moves is in the books before they are audited.
pub proof fn law_settlements_are_audited_in_the_same_pass(
    m: CoreModel,
    now_ms: i64,
    i: int,
    j: int,
)
    requires
        0 <= i < tick_steps(m, now_ms).len(),
        0 <= j < tick_steps(m, now_ms).len(),
        tick_steps(m, now_ms)[i] == TickStep::Settle,
        tick_steps(m, now_ms)[j] == TickStep::Audit,
    ensures
        i < j,
{
    let first = taken(TickStep::FlushArchive, m.config.event_archive_path is Some)
        + seq![TickStep::RetryFills];
    let settle = taken(TickStep::Settle, m.config.mode.is_local());
    let s = tick_steps(m, now_ms);
    let n = first.len();
    assert(settle.len() <= 1);
    if i < n {
        assert(s[i] == first[i]);
    }
    if j <= n {
        if j < n {
            assert(s[j] == first[j]);
        } else if settle.len() == 1 {
            assert(s[j] == settle[0]);
        }
    }
    if i > n {
        lemma_settle_comes_early(m, now_ms, i);
    }
    if i == n && j <= n {
        assert(s[j] == TickStep::Audit);
    }
}

proof fn lemma_settle_comes_early(m: CoreModel, now_ms: i64, i: int)
    requires
        0 <= i < tick_steps(m, now_ms).len(),
        tick_steps(m, now_ms)[i] == TickStep::Settle,
    ensures
        i <= (taken(TickStep::FlushArchive, m.config.event_archive_path is Some)
            + seq![TickStep::RetryFills]).len(),
{
    let e = early_steps(m, now_ms);
    let s = tick_steps(m, now_ms);
    if i >= e.len() {
        assert(s[i] == late_steps()[i - e.len()]);
    } else {
        assert(s[i] == e[i]);
    }
}

// ---------------------------------------------------------------------------------------------
// A sweep against the venue

/// What a sweep had to do to an order.
#[derive(Clone, Copy, Debug, PartialEq, Eq, Structural)]
pub enum Repair {
    /// A fill was missing.
    FilledGap,
    /// The order had been filled.
    MarkedFilled,
    /// The order had been cancelled.
    MarkedCancelled,
    /// Something else.
    Other,
}

/// What a sweep found.
#[derive(Debug)]
pub struct SweepReport {
    pub repairs: Vec<Repair>,
    /// The orders that the venue may not know.
    pub ghost_ids: Vec<String>,
    /// How many trades it saw on orders that are not the kernel's.
    pub external_fills: usize,
}

/// How many repairs are of a sort.
pub open spec fn repairs_of(repairs: Seq<Repair>, sort: Repair) -> nat
    decreases repairs.len(),
{
    if repairs.len() == 0 {
        0
    } else {
        repairs_of(repairs.drop_last(), sort) + if repairs.last() == sort {
            1nat
        } else {
            0nat
        }
    }
}

fn count_repairs(repairs: &Vec<Repair>, sort: Repair) -> (r: usize)
    ensures
        r == repairs_of(repairs@, sort),
        r <= repairs@.len(),
{
    let mut n: usize = 0;
    let mut i: usize = 0;
    assert(repairs@.take(0) =~= Seq::empty());
    while i < repairs.len()
        invariant
            i <= repairs@.len(),
            n <= i,
            n == repairs_of(repairs@.take(i as int), sort),
        decreases repairs@.len() - i,
    {
        assert(repairs@.take(i + 1).drop_last() =~= repairs@.take(i as int));
        if repairs[i] == sort {
            n = n + 1;
        }
        i = i + 1;
    }
    assert(repairs@.take(i as int) =~= repairs@);
    n
}

/// A sweep found something to tell.
pub open spec fn sweep_tells(report: SweepReport) -> bool {
    report.repairs@.len() > 0 || report.ghost_ids@.len() > 0 || report.external_fills > 0
}

/// What is told of a sweep.
pub open spec fn sweep_events(report: SweepReport) -> Seq<EventModel> {
    if sweep_tells(report) {
        seq![
            EventModel::ReconcileReport {
                filled: repairs_of(report.repairs@, Repair::FilledGap) as usize,
                marked_filled: repairs_of(report.repairs@, Repair::MarkedFilled) as usize,
                marked_cancelled: repairs_of(report.repairs@, Repair::MarkedCancelled) as usize,
                ghost_ids: model::texts(report.ghost_ids@),
            },
        ]
    } else {
        Seq::empty()
    }
}

impl Core {
    /// Takes a sweep against the venue in that succeeded. It ends the streak of failed ones, and
    /// is told where it found anything.
    pub fn reconcile(&mut self, report: &SweepReport) -> (r: Vec<Event>)
        requires
            old(self).wf(),
        ensures
            final(self).wf(),
            final(self)@ == (CoreModel { consecutive_sweep_failures: 0, ..old(self)@ }),
            service::events_model(r@) == sweep_events(*report),
    {
        self.on_reconcile_succeeded();
        if report.repairs.len() > 0 || report.ghost_ids.len() > 0 || report.external_fills > 0 {
            service::one_event(
                Event::ReconcileReport {
                    filled: count_repairs(&report.repairs, Repair::FilledGap),
                    marked_filled: count_repairs(&report.repairs, Repair::MarkedFilled),
                    marked_cancelled: count_repairs(&report.repairs, Repair::MarkedCancelled),
                    ghost_ids: model::clone_texts(&report.ghost_ids),
                },
            )
        } else {
            service::no_event()
        }
    }
}

// ---------------------------------------------------------------------------------------------
// Fills of the kernel's own matcher

/// How far a trade has got at the venue.
#[derive(Clone, Copy, Debug, PartialEq, Eq, Structural)]
pub enum FillStatus {
    Confirmed,
    Failed,
}

/// A fill as it reaches the order manager. The size is what its trade has filled in all.
#[derive(Debug)]
pub struct Fill {
    pub order_id: String,
    pub trade_id: Option<String>,
    pub token_id: String,
    pub side: Side,
    pub price: Decimal,
    pub size: Decimal,
    pub status: FillStatus,
    pub ts_ms: i64,
    pub maker: Option<bool>,
}

/// A fill of the kernel's own matcher: a trade that is confirmed at once.
pub fn authoritative_fill(
    id: &str,
    order: Option<&TrackedOrder>,
    trade_id: &str,
    cumulative: Decimal,
    price: Decimal,
    maker: bool,
    now_ms: i64,
) -> (r: Result<Fill, CoreError>)
    ensures
        match r {
            Ok(f) => {
                &&& order is Some
                &&& f.order_id@ == id@
                &&& f.trade_id is Some && f.trade_id->0@ == trade_id@
                &&& f.token_id@ == order->0@.token_id
                &&& f.side == order->0.side
                &&& f.price == price
                &&& f.size == cumulative
                &&& f.status == FillStatus::Confirmed
                &&& f.ts_ms == now_ms
                &&& f.maker == Some(maker)
            },
            Err(e) => order is None && e@ == orders::unknown_order(id@),
        },
{
    match order {
        None => Err(CoreError::new(CoreErrorCode::UnknownOrder, id.to_owned())),
        Some(o) => Ok(
            Fill {
                order_id: id.to_owned(),
                trade_id: Some(trade_id.to_owned()),
                token_id: o.token_id.clone(),
                side: o.side,
                price,
                size: cumulative,
                status: FillStatus::Confirmed,
                ts_ms: now_ms,
                maker: Some(maker),
            },
        ),
    }
}

} // verus!
