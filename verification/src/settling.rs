//! Settling positions at their market's verdict, and redeeming what they paid.
//!
//! A settled position's payout is owed until its redemption lands: only then is it cash. What the
//! settlement book commits comes before what the position book closes, so that nothing is booked
//! twice and an interrupted close can be finished.
use vstd::prelude::*;
use vstd::string::*;

use crate::decimal;
use crate::decimal::Decimal;
use crate::exits;
use crate::model;
use crate::model::{
    CoreError, CoreErrorCode, Event, EventModel, MarketResolution, OpenPosition, RedemptionFailure,
    RedemptionRequest, RedemptionResult, SettlementQuery,
};
use crate::service;
use crate::service::{Core, CoreModel};
use crate::settlement;
use crate::settlement::{BookModel, BookingModel, QueryModel, SettlementBooking};
use crate::settlement_laws;
use crate::settlement_laws::BookCall;
use crate::str_map;
use crate::text;

verus! {

// ---------------------------------------------------------------------------------------------
// Watching markets

/// Some position is on a market.
pub open spec fn holds_market(positions: Seq<OpenPosition>, condition_id: Seq<char>) -> bool {
    exists|i: int| 0 <= i < positions.len() && (#[trigger] positions[i]).condition_id@ == condition_id
}

/// A book that watches the markets of the open positions, and no others.
pub open spec fn watch_synced(m: BookModel, positions: Seq<OpenPosition>, now_ms: i64) -> BookModel {
    let tracked_now = settlement::track_step(m, positions, now_ms);
    BookModel {
        queries: tracked_now.queries.restrict(
            Set::new(|k: Seq<char>| holds_market(positions, k)),
        ),
        ..tracked_now
    }
}

fn has_market(positions: &Vec<OpenPosition>, condition_id: &str) -> (r: bool)
    ensures
        r == holds_market(positions@, condition_id@),
{
    let mut i: usize = 0;
    while i < positions.len()
        invariant
            i <= positions@.len(),
            forall|j: int| 0 <= j < i ==> (#[trigger] positions@[j]).condition_id@ != condition_id@,
        decreases positions@.len() - i,
    {
        if text::same_text(positions[i].condition_id.as_str(), condition_id) {
            return true;
        }
        i = i + 1;
    }
    false
}

impl Core {
    /// Keeps the list of watched markets in step with the open positions: a market is watched once
    /// a position is past its end, and forgotten once its last position has left.
    pub fn sync_settlement_watch(&mut self, positions: &Vec<OpenPosition>, now_ms: i64)
        requires
            old(self).wf(),
        ensures
            final(self).wf(),
            final(self)@ == (CoreModel {
                settlement: watch_synced(old(self)@.settlement, positions@, now_ms),
                ..old(self)@
            }),
    {
        let ghost m = self@;
        let _ = self.settlement.track_markets(positions, now_ms);
        let ghost base = self@.settlement;
        let ids = self.settlement.tracked_condition_ids();
        let ghost all = model::texts(ids@);
        let ghost order = str_map::ordered(base.queries);
        proof {
            assert(all == order.map_values(|e: (Seq<char>, QueryModel)| e.0));
            str_map::lemma_has_order(base.queries);
            str_map::lemma_entries_map(order);
            assert(base.queries =~= base.queries.remove_keys(
                Set::new(
                    |k: Seq<char>|
                        exists|j: int|
                            0 <= j < 0 && #[trigger] all[j] == k && !holds_market(positions@, k),
                ),
            ));
        }
        let mut i: usize = 0;
        while i < ids.len()
            invariant
                i <= ids@.len(),
                all == model::texts(ids@),
                self.wf(),
                self@ == (CoreModel { settlement: self@.settlement, ..m }),
                self@.settlement == (BookModel { queries: self@.settlement.queries, ..base }),
                self@.settlement.queries == base.queries.remove_keys(
                    Set::new(
                        |k: Seq<char>|
                            exists|j: int|
                                0 <= j < i && #[trigger] all[j] == k && !holds_market(
                                    positions@,
                                    k,
                                ),
                    ),
                ),
            decreases ids@.len() - i,
        {
            let id = &ids[i];
            let ghost before = self@.settlement.queries;
            let ghost gone_before = Set::new(
                |k: Seq<char>|
                    exists|j: int|
                        0 <= j < i && #[trigger] all[j] == k && !holds_market(positions@, k),
            );
            let ghost gone_after = Set::new(
                |k: Seq<char>|
                    exists|j: int|
                        0 <= j < i + 1 && #[trigger] all[j] == k && !holds_market(positions@, k),
            );
            assert(all[i as int] == id@);
            if !has_market(positions, id.as_str()) {
                self.settlement.forget_market(id.as_str());
            }
            proof {
                assert forall|k: Seq<char>| gone_after.contains(k) == (gone_before.contains(k) || (k
                    == id@ && !holds_market(positions@, k))) by {
                    if gone_before.contains(k) {
                        let j = choose|j: int|
                            0 <= j < i && #[trigger] all[j] == k && !holds_market(positions@, k);
                        assert(0 <= j < i + 1 && all[j] == k);
                    }
                    if gone_after.contains(k) && k != id@ {
                        let j = choose|j: int|
                            0 <= j < i + 1 && #[trigger] all[j] == k && !holds_market(
                                positions@,
                                k,
                            );
                        assert(0 <= j < i && all[j] == k);
                    }
                }
                assert(self@.settlement.queries =~= base.queries.remove_keys(gone_after));
            }
            i = i + 1;
        }
        proof {
            assert(i == all.len());
            let synced = watch_synced(m.settlement, positions@, now_ms).queries;
            assert forall|k: Seq<char>|
                self@.settlement.queries.dom().contains(k) == synced.dom().contains(k) by {
                if base.queries.dom().contains(k) && !holds_market(positions@, k) {
                    let j = choose|j: int| 0 <= j < order.len() && #[trigger] order[j].0 == k;
                    assert(all[j] == k);
                }
            }
            assert forall|k: Seq<char>| self@.settlement.queries.dom().contains(k) implies #[trigger]
            self@.settlement.queries[k] == synced[k] by {
                assert(self@.settlement.queries[k] == base.queries[k]);
                assert(base.queries == settlement::track_step(
                    m.settlement,
                    positions@,
                    now_ms,
                ).queries);
                assert(synced.dom().contains(k));
                assert(synced[k] == base.queries[k]);
            }
            assert(self@.settlement.queries =~= synced);
        }
    }

    /// The markets to ask the venue about.
    pub fn take_settlement_queries(&mut self, positions: &Vec<OpenPosition>, now_ms: i64) -> (r: Vec<
        SettlementQuery,
    >)
        requires
            old(self).wf(),
        ensures
            final(self).wf(),
            final(self)@ == (CoreModel {
                settlement: settlement::queries_step(
                    watch_synced(old(self)@.settlement, positions@, now_ms),
                    now_ms,
                ),
                ..old(self)@
            }),
            r@.map_values(|q: SettlementQuery| q@) == settlement::questions_due(
                str_map::ordered(
                    watch_synced(old(self)@.settlement, positions@, now_ms).queries,
                ),
                now_ms,
            ),
    {
        self.sync_settlement_watch(positions, now_ms);
        self.settlement.take_queries(now_ms)
    }

    /// Says once per episode that the venue has fallen silent on markets that have ended: their
    /// positions cannot settle until it answers.
    pub fn alert_if_settlement_blind(&mut self, now_ms: i64) -> (r: Vec<Event>)
        requires
            old(self).wf(),
        ensures
            final(self).wf(),
            ({
                let m = old(self)@;
                let since = silent_since(m.settlement, now_ms);
                let after = CoreModel {
                    settlement: settlement::blind_step(m.settlement, since is Some),
                    ..m
                };
                if settlement::blind_edge(m.settlement, since is Some) {
                    let message = blind_text(since->0, m.settlement.queries.len());
                    &&& final(self)@ == service::error_noted(
                        after,
                        CoreErrorCode::Internal,
                        message,
                        now_ms,
                    )
                    &&& service::events_model(r@) == seq![
                        EventModel::Error {
                            error: model::spec_error(CoreErrorCode::Internal, message),
                        },
                    ]
                } else {
                    &&& final(self)@ == after
                    &&& service::events_model(r@) == Seq::<EventModel>::empty()
                }
            }),
    {
        let blind = self.settlement.blind_since_ms(now_ms);
        if self.settlement.note_blind_state(blind.is_some()) {
            let since: i64 = match blind {
                Some(t) => t,
                None => now_ms,
            };
            let mut message = text::join(
                "settlement: no market verdict since ",
                text::write_i64(since).as_str(),
            );
            message.append(" — ");
            message.append(text::write_u64(self.settlement.tracked_markets() as u64).as_str());
            message.append(" market(s) past expiry cannot settle until the venue answers");
            return self.emit_error_at(CoreError::new(CoreErrorCode::Internal, message), now_ms);
        }
        service::no_event()
    }
}

/// Since when the venue has been silent for too long on a watched market.
pub open spec fn silent_since(m: BookModel, now_ms: i64) -> Option<int> {
    match settlement::oldest_sign(str_map::ordered(m.queries)) {
        Some(t) => if now_ms - t > settlement::BLIND_AFTER_MS {
            Some(t)
        } else {
            None
        },
        None => None,
    }
}

/// What an operator is told of the venue's silence.
pub open spec fn blind_text(since_ms: int, markets: nat) -> Seq<char> {
    "settlement: no market verdict since "@ + text::int_text(since_ms) + " — "@ + text::nat_text(
        markets,
    ) + " market(s) past expiry cannot settle until the venue answers"@
}

// ---------------------------------------------------------------------------------------------
// A verdict

/// The positions on a market.
pub open spec fn held_on(positions: Seq<OpenPosition>, condition_id: Seq<char>) -> Seq<OpenPosition>
    decreases positions.len(),
{
    if positions.len() == 0 {
        Seq::empty()
    } else {
        let rest = held_on(positions.drop_last(), condition_id);
        if positions.last().condition_id@ == condition_id {
            rest.push(positions.last())
        } else {
            rest
        }
    }
}

/// What a share of a position pays; nothing where the verdict does not name its token.
pub open spec fn pays(p: OpenPosition, r: MarketResolution) -> int {
    match model::payout_index(r.payouts@, p.token_id@) {
        Some(i) => r.payouts@[i].1@,
        None => 0,
    }
}

/// Where a position that pays `value` a share stands among positions that pay less and less:
/// behind all that pay as much.
pub open spec fn spot(sorted: Seq<OpenPosition>, r: MarketResolution, value: int) -> int
    decreases sorted.len(),
{
    if sorted.len() == 0 {
        0
    } else if pays(sorted.last(), r) >= value {
        sorted.len() as int
    } else {
        spot(sorted.drop_last(), r, value)
    }
}

/// Positions in the order in which they are settled: what pays more comes first, and what pays the
/// same stays in its order. A market's claim has to exist before a worthless leg can join it.
pub open spec fn paying_order(s: Seq<OpenPosition>, r: MarketResolution) -> Seq<OpenPosition>
    decreases s.len(),
{
    if s.len() == 0 {
        Seq::empty()
    } else {
        let rest = paying_order(s.drop_last(), r);
        rest.insert(spot(rest, r, pays(s.last(), r)), s.last())
    }
}

proof fn lemma_spot(sorted: Seq<OpenPosition>, r: MarketResolution, value: int)
    ensures
        0 <= spot(sorted, r, value) <= sorted.len(),
        forall|i: int|
            spot(sorted, r, value) <= i < sorted.len() ==> pays(#[trigger] sorted[i], r) < value,
        spot(sorted, r, value) > 0 ==> pays(sorted[spot(sorted, r, value) - 1], r) >= value,
    decreases sorted.len(),
{
    if sorted.len() > 0 && pays(sorted.last(), r) < value {
        lemma_spot(sorted.drop_last(), r, value);
        assert forall|i: int| spot(sorted, r, value) <= i < sorted.len() implies pays(
            #[trigger] sorted[i],
            r,
        ) < value by {
            if i < sorted.len() - 1 {
                assert(sorted.drop_last()[i] == sorted[i]);
            }
        }
    }
}

/// Positions stand so that none pays more than one before it.
pub open spec fn pays_less_and_less(s: Seq<OpenPosition>, r: MarketResolution) -> bool {
    forall|i: int, j: int|
        0 <= i < j < s.len() ==> pays(#[trigger] s[i], r) >= pays(#[trigger] s[j], r)
}

proof fn lemma_placed_in_order(rest: Seq<OpenPosition>, p: OpenPosition, r: MarketResolution)
    requires
        pays_less_and_less(rest, r),
    ensures
        pays_less_and_less(rest.insert(spot(rest, r, pays(p, r)), p), r),
{
    let v = pays(p, r);
    let at = spot(rest, r, v);
    let all = rest.insert(at, p);
    lemma_spot(rest, r, v);
    assert forall|i: int, j: int| 0 <= i < j < all.len() implies pays(#[trigger] all[i], r)
        >= pays(#[trigger] all[j], r) by {
        let i0 = if i < at {
            i
        } else {
            i - 1
        };
        let j0 = if j < at {
            j
        } else {
            j - 1
        };
        if j == at {
            assert(all[i] == rest[i]);
            if i < at - 1 {
                assert(pays(rest[i], r) >= pays(rest[at - 1], r));
            }
        } else if i == at {
            assert(all[j] == rest[j0]);
        } else {
            assert(all[i] == rest[i0]);
            assert(all[j] == rest[j0]);
        }
    }
}

proof fn lemma_placed_once(rest: Seq<OpenPosition>, at: int, p: OpenPosition)
    requires
        0 <= at <= rest.len(),
    ensures
        rest.insert(at, p).to_multiset() == rest.to_multiset().insert(p),
{
    let all = rest.insert(at, p);
    all.to_multiset_ensures();
    assert(all.remove(at) =~= rest);
    assert(all[at] == p);
    assert(all.contains(p));
    assert(all.to_multiset() =~= rest.to_multiset().insert(p));
}

/// The legs that pay are settled before those that do not, and none is left out or settled twice.
pub proof fn law_paying_legs_settle_first(s: Seq<OpenPosition>, r: MarketResolution)
    ensures
        pays_less_and_less(paying_order(s, r), r),
        paying_order(s, r).to_multiset() == s.to_multiset(),
        paying_order(s, r).len() == s.len(),
    decreases s.len(),
{
    if s.len() > 0 {
        let front = s.drop_last();
        law_paying_legs_settle_first(front, r);
        let rest = paying_order(front, r);
        lemma_spot(rest, r, pays(s.last(), r));
        lemma_placed_in_order(rest, s.last(), r);
        lemma_placed_once(rest, spot(rest, r, pays(s.last(), r)), s.last());
        front.to_multiset_ensures();
        assert(s =~= front.push(s.last()));
    } else {
        assert(paying_order(s, r) =~= s);
    }
}

fn collect_held(positions: &Vec<OpenPosition>, condition_id: &str) -> (r: Vec<OpenPosition>)
    ensures
        r@ == held_on(positions@, condition_id@),
{
    let mut out: Vec<OpenPosition> = Vec::new();
    let mut i: usize = 0;
    assert(positions@.take(0) =~= Seq::empty());
    while i < positions.len()
        invariant
            i <= positions@.len(),
            out@ == held_on(positions@.take(i as int), condition_id@),
        decreases positions@.len() - i,
    {
        let p = &positions[i];
        assert(positions@.take(i + 1).drop_last() =~= positions@.take(i as int));
        if text::same_text(p.condition_id.as_str(), condition_id) {
            out.push(p.clone());
        }
        i = i + 1;
    }
    assert(positions@.take(i as int) =~= positions@);
    out
}

fn payout_or_zero(p: &OpenPosition, r: &MarketResolution) -> (v: Decimal)
    ensures
        v@ == pays(*p, *r),
{
    match r.payout_per_share(p.token_id.as_str()) {
        Some(v) => v,
        None => Decimal::zero(),
    }
}

fn sort_by_payout(held: Vec<OpenPosition>, resolution: &MarketResolution) -> (r: Vec<OpenPosition>)
    ensures
        r@ == paying_order(held@, *resolution),
{
    let mut sorted: Vec<OpenPosition> = Vec::new();
    let mut i: usize = 0;
    assert(held@.take(0) =~= Seq::empty());
    while i < held.len()
        invariant
            i <= held@.len(),
            sorted@ == paying_order(held@.take(i as int), *resolution),
        decreases held@.len() - i,
    {
        let p = held[i].clone();
        let v = payout_or_zero(&p, resolution);
        let mut at: usize = sorted.len();
        assert(held@.take(i + 1).drop_last() =~= held@.take(i as int));
        assert(sorted@.take(at as int) =~= sorted@);
        while at > 0 && payout_or_zero(&sorted[at - 1], resolution).less(v)
            invariant
                at <= sorted@.len(),
                v@ == pays(p, *resolution),
                spot(sorted@, *resolution, v@) == spot(sorted@.take(at as int), *resolution, v@),
            decreases at,
        {
            proof {
                assert(sorted@.take(at as int).last() == sorted@[at - 1]);
                assert(sorted@.take(at as int).drop_last() =~= sorted@.take(at - 1));
            }
            at = at - 1;
        }
        proof {
            if at > 0 {
                assert(sorted@.take(at as int).last() == sorted@[at - 1]);
            }
        }
        sorted.insert(at, p);
        i = i + 1;
    }
    assert(held@.take(i as int) =~= held@);
    sorted
}

/// What is done with one position at its market's verdict.
#[derive(Debug)]
pub enum SettleStep {
    /// The verdict does not name its token: it stays open.
    Unpriced { what: String },
    /// It was settled before.
    Known,
    /// The settlement is committed, and the position is to be closed at its payout.
    Close { booking: SettlementBooking },
}

/// What names a position that a verdict leaves open.
pub open spec fn unpriced_text(p: OpenPosition) -> Seq<char> {
    p.token_id@ + " (position "@ + p.id@ + ")"@
}

/// The settlement of a position at a verdict.
pub open spec fn booking_at(p: OpenPosition, r: MarketResolution) -> Option<BookingModel> {
    match settlement::held_outcome(p, r) {
        Some(i) => Some(settlement::booking_model(p, r.payouts@[i].1, i as usize)),
        None => None,
    }
}

/// What an operator is told of the positions that were settled.
pub open spec fn settled_text(settled: usize, condition_id: Seq<char>, payout: Decimal) -> Seq<char> {
    "settled "@ + text::nat_text(settled as nat) + " position(s) on "@ + condition_id + " — "@
        + decimal::text_of(payout) + " USDC receivable pending redemption"@
}

/// What an operator is told of the positions that a verdict leaves open.
pub open spec fn left_open_text(r: MarketResolution, unpriced: Seq<Seq<char>>) -> Seq<char> {
    "settlement: resolution of "@ + r.condition_id@ + " (source "@ + r.source@
        + ") prices no outcome for "@ + text::joined(unpriced, ", "@) + " — left open"@
}

/// A kernel that is done with a market: it is forgotten, unless a position was left open.
pub open spec fn resolution_done(
    m: CoreModel,
    r: MarketResolution,
    unpriced: Seq<Seq<char>>,
    now_ms: i64,
) -> CoreModel {
    if unpriced.len() > 0 {
        service::error_noted(m, CoreErrorCode::Internal, left_open_text(r, unpriced), now_ms)
    } else {
        CoreModel { settlement: settlement::forget_step(m.settlement, r.condition_id@), ..m }
    }
}

/// What a kernel says of a verdict.
pub open spec fn resolution_events(
    r: MarketResolution,
    settled: usize,
    payout: Decimal,
    unpriced: Seq<Seq<char>>,
) -> Seq<EventModel> {
    let told = if settled > 0 {
        seq![
            EventModel::RiskAlert {
                code: CoreErrorCode::Internal,
                message: settled_text(settled, r.condition_id@, payout),
            },
        ]
    } else {
        Seq::empty()
    };
    if unpriced.len() > 0 {
        told.push(
            EventModel::Error {
                error: model::spec_error(CoreErrorCode::Internal, left_open_text(r, unpriced)),
            },
        )
    } else {
        told
    }
}

/// The book after a verdict was heard, before any position is settled.
pub open spec fn resolution_heard(
    m: BookModel,
    r: MarketResolution,
    positions: Seq<OpenPosition>,
    now_ms: i64,
) -> BookModel {
    let heard = settlement::answer_step(m, r.condition_id@, now_ms);
    if r.resolved && held_on(positions, r.condition_id@).len() == 0 {
        settlement::forget_step(heard, r.condition_id@)
    } else {
        heard
    }
}

/// The settlement of one position can be booked: no sum and no count of it leaves its range.
pub open spec fn settle_ok(m: CoreModel, p: OpenPosition, r: MarketResolution, now_ms: i64) -> bool {
    booking_at(p, r) matches Some(b) ==> settlement::counted_shares(p).times_ok(
        b.payout_per_share,
    ) && settlement::book_ok(m.settlement, b, r, now_ms)
}

/// What becomes of one position when its market has resolved: nothing where the verdict does not
/// price it, else its settlement is committed, once, and it is to be closed, once.
pub open spec fn position_settled(
    m: CoreModel,
    after: CoreModel,
    step: SettleStep,
    p: OpenPosition,
    r: MarketResolution,
    now_ms: i64,
) -> bool {
    match booking_at(p, r) {
        None => {
            &&& step matches SettleStep::Unpriced { what }
            &&& what@ == unpriced_text(p)
            &&& after == m
        },
        Some(b) => {
            &&& after == (CoreModel {
                settlement: settlement::book_step(m.settlement, b, r, now_ms),
                ..m
            })
            &&& if m.settlement.applied.dom().contains(b.key) {
                step is Known
            } else {
                &&& step matches SettleStep::Close { booking }
                &&& booking@ == (BookingModel {
                    claim_id: settlement::booked_record(m.settlement, b, r, now_ms).claim_id,
                    ..b
                })
            }
        },
    }
}

impl Core {
    /// Hears how a market resolved, and lists the positions to settle, in order. There are none
    /// where the market has not resolved, and none where nothing is held on it, which then is
    /// forgotten.
    pub fn on_market_resolution(
        &mut self,
        resolution: &MarketResolution,
        positions: &Vec<OpenPosition>,
        now_ms: i64,
    ) -> (r: Vec<OpenPosition>)
        requires
            old(self).wf(),
            old(self)@.settlement.queries.dom().contains(resolution.condition_id@) ==> old(
                self,
            )@.settlement.queries[resolution.condition_id@].answers < u32::MAX && now_ms
                + settlement::REQUERY_MS <= i64::MAX,
        ensures
            final(self).wf(),
            final(self)@ == (CoreModel {
                settlement: resolution_heard(
                    old(self)@.settlement,
                    *resolution,
                    positions@,
                    now_ms,
                ),
                ..old(self)@
            }),
            r@ == if resolution.resolved {
                paying_order(held_on(positions@, resolution.condition_id@), *resolution)
            } else {
                Seq::empty()
            },
    {
        self.settlement.note_answer(
            resolution.condition_id.as_str(),
            resolution.resolved,
            now_ms,
        );
        if !resolution.resolved {
            return Vec::new();
        }
        let held = collect_held(positions, resolution.condition_id.as_str());
        if held.len() == 0 {
            self.settlement.forget_market(resolution.condition_id.as_str());
        }
        sort_by_payout(held, resolution)
    }

    /// Commits the settlement of one position. The commit comes before the close: it is what a
    /// restart finds, and what keeps a verdict that is told twice from paying twice.
    pub fn settle_position(
        &mut self,
        p: &OpenPosition,
        resolution: &MarketResolution,
        now_ms: i64,
    ) -> (r: SettleStep)
        requires
            old(self).wf(),
            settle_ok(old(self)@, *p, *resolution, now_ms),
        ensures
            final(self).wf(),
            position_settled(old(self)@, final(self)@, r, *p, *resolution, now_ms),
    {
        match settlement::booking_for(p, resolution) {
            None => {
                let mut what = text::join(p.token_id.as_str(), " (position ");
                what.append(p.id.as_str());
                what.append(")");
                SettleStep::Unpriced { what }
            },
            Some(booking) => match self.settlement.book(&booking, resolution, now_ms) {
                None => SettleStep::Known,
                Some(booking) => SettleStep::Close { booking },
            },
        }
    }

    /// Takes in that the close of a settled position is written down.
    pub fn note_settled_close(&mut self, key: &str, now_ms: i64)
        requires
            old(self).wf(),
        ensures
            final(self).wf(),
            final(self)@ == (CoreModel {
                settlement: settlement::close_step(old(self)@.settlement, key@, now_ms),
                ..old(self)@
            }),
    {
        self.settlement.note_closed(key, now_ms);
    }

    /// Is done with a market, and says what was settled for how much, and what was left open. A
    /// market with a position left open stays watched, for a later verdict may price it.
    pub fn finish_resolution(
        &mut self,
        resolution: &MarketResolution,
        settled: usize,
        payouts: &Vec<Decimal>,
        unpriced: &Vec<String>,
        now_ms: i64,
    ) -> (r: Vec<Event>)
        requires
            old(self).wf(),
            decimal::total_ok(payouts@),
        ensures
            final(self).wf(),
            final(self)@ == resolution_done(
                old(self)@,
                *resolution,
                model::texts(unpriced@),
                now_ms,
            ),
            service::events_model(r@) == resolution_events(
                *resolution,
                settled,
                decimal::total(payouts@),
                model::texts(unpriced@),
            ),
    {
        let payout = decimal::sum_of(payouts);
        let mut out = service::no_event();
        if settled > 0 {
            let mut message = text::join("settled ", text::write_u64(settled as u64).as_str());
            message.append(" position(s) on ");
            message.append(resolution.condition_id.as_str());
            message.append(" — ");
            message.append(payout.text().as_str());
            message.append(" USDC receivable pending redemption");
            out = service::one_event(
                Event::RiskAlert { code: CoreErrorCode::Internal, message },
            );
        }
        let ghost told = service::events_model(out@);
        if unpriced.len() > 0 {
            let mut message = text::join(
                "settlement: resolution of ",
                resolution.condition_id.as_str(),
            );
            message.append(" (source ");
            message.append(resolution.source.as_str());
            message.append(") prices no outcome for ");
            message.append(text::join_all(unpriced, ", ").as_str());
            message.append(" — left open");
            let error = CoreError::new(CoreErrorCode::Internal, message);
            self.note_error(&error, now_ms);
            let e = Event::Error { error };
            out.push(e);
            assert(service::events_model(out@) =~= told.push(e@));
            return out;
        }
        self.settlement.forget_market(resolution.condition_id.as_str());
        out
    }
}

/// A market with a position that its verdict does not price stays watched.
pub proof fn law_an_unpriced_market_stays_watched(
    m: CoreModel,
    r: MarketResolution,
    unpriced: Seq<Seq<char>>,
    now_ms: i64,
)
    requires
        unpriced.len() > 0,
    ensures
        resolution_done(m, r, unpriced, now_ms).settlement == m.settlement,
{
}

// ---------------------------------------------------------------------------------------------
// Redemptions

/// What an operator is told of a redemption that landed.
pub open spec fn redeemed_text(id: Seq<char>, payout: Decimal, tx_hash: Option<Seq<char>>) -> Seq<
    char,
> {
    "redeemed settled position: +"@ + decimal::text_of(payout) + " USDC on-chain (claim "@ + id
        + ", tx "@ + match tx_hash {
        Some(t) => t,
        None => "n/a"@,
    } + ")"@
}

/// What an operator is told of a redemption that failed.
pub open spec fn redemption_failure_text(id: Seq<char>, message: Seq<char>, manual: bool) -> Seq<
    char,
> {
    "redemption of claim "@ + id + " failed ("@ + if manual {
        "manual redemption required"@
    } else {
        "will retry"@
    } + "): "@ + message
}

/// A claim whose redemption failed is left to the operator, by this result or by an earlier one.
pub open spec fn left_for_good(m: BookModel, id: Seq<char>, manual: bool) -> bool {
    manual || (m.claims.dom().contains(id) && m.claims[id].manual)
}

/// The cash that a redemption brings: the payout of a claim that is owed, and nothing for a claim
/// that is not known or was redeemed before.
pub open spec fn redemption_credit(m: BookModel, id: Seq<char>, failed: bool) -> Option<Decimal> {
    if failed {
        None
    } else {
        settlement::confirmed_payout(m, id)
    }
}

/// A kernel that has taken the result of a redemption in.
pub open spec fn redemption_taken(m: CoreModel, result: RedemptionResult, now_ms: i64) -> CoreModel {
    match result.failure {
        None => CoreModel {
            settlement: settlement::confirm_step(
                m.settlement,
                result.id@,
                model::opt_text(result.tx_hash),
                result.block_number,
                now_ms,
            ),
            ..m
        },
        Some(f) => service::error_noted(
            CoreModel {
                settlement: settlement::failure_step(
                    m.settlement,
                    result.id@,
                    f.message@,
                    f.manual,
                    now_ms,
                ),
                ..m
            },
            CoreErrorCode::VenueError,
            redemption_failure_text(
                result.id@,
                f.message@,
                left_for_good(m.settlement, result.id@, f.manual),
            ),
            now_ms,
        ),
    }
}

/// What a kernel says of the result of a redemption.
pub open spec fn redemption_events(m: CoreModel, result: RedemptionResult) -> Seq<EventModel> {
    match result.failure {
        None => match settlement::confirmed_payout(m.settlement, result.id@) {
            Some(payout) => seq![
                EventModel::RiskAlert {
                    code: CoreErrorCode::Internal,
                    message: redeemed_text(
                        result.id@,
                        payout,
                        model::opt_text(result.tx_hash),
                    ),
                },
            ],
            None => Seq::empty(),
        },
        Some(f) => seq![
            EventModel::Error {
                error: model::spec_error(
                    CoreErrorCode::VenueError,
                    redemption_failure_text(
                        result.id@,
                        f.message@,
                        left_for_good(m.settlement, result.id@, f.manual),
                    ),
                ),
            },
        ],
    }
}

/// What the kernel's own redemption of a claim says: it fails as often as the settings want it to,
/// and then lands.
pub open spec fn simulated_failure(m: CoreModel, id: Seq<char>) -> Option<Seq<char>> {
    let attempts = if m.settlement.claims.dom().contains(id) {
        m.settlement.claims[id].attempts
    } else {
        0
    };
    if attempts <= m.config.dry_redeem_fail {
        Some(
            "dry-simulated redemption failure (attempt "@ + text::nat_text(attempts as nat)
                + " of "@ + text::nat_text(m.config.dry_redeem_fail as nat) + " injected)"@,
        )
    } else {
        None
    }
}

impl Core {
    /// The claims to redeem now; each is stamped with its next attempt.
    pub fn take_pending_redemptions(&mut self, now_ms: i64) -> (r: Vec<RedemptionRequest>)
        requires
            old(self).wf(),
            forall|k: Seq<char>| #[trigger]
                old(self)@.settlement.claims.dom().contains(k) ==> settlement::claim_sent_ok(
                    old(self)@.settlement.claims[k],
                    now_ms,
                ),
        ensures
            final(self).wf(),
            final(self)@ == (CoreModel {
                settlement: settlement::redemptions_step(old(self)@.settlement, now_ms),
                ..old(self)@
            }),
            r@.map_values(|q: RedemptionRequest| q@) == settlement::requests_due(
                str_map::ordered(old(self)@.settlement.claims),
                now_ms,
            ),
    {
        self.settlement.take_redemptions(now_ms)
    }

    /// Takes the result of a redemption in. One that landed brings the claim's payout as cash, at
    /// the instant at which it stops being owed; the result is the cash to book. One that failed is
    /// told, and tried again on the claim's own clock.
    pub fn on_redemption_result(&mut self, result: RedemptionResult, now_ms: i64) -> (r: (
        Option<Decimal>,
        Vec<Event>,
    ))
        requires
            old(self).wf(),
            old(self)@.settlement.claims.dom().contains(result.id@) ==> {
                let c = old(self)@.settlement.claims[result.id@];
                match result.failure {
                    None => settlement::redeemed_of(old(self)@.settlement, c.condition_id)
                        < u32::MAX,
                    Some(f) => c.manual || f.manual || now_ms + settlement::backoff(c.attempts)
                        <= i64::MAX,
                }
            },
        ensures
            final(self).wf(),
            final(self)@ == redemption_taken(old(self)@, result, now_ms),
            r.0 == redemption_credit(
                old(self)@.settlement,
                result.id@,
                result.failure is Some,
            ),
            service::events_model(r.1@) == redemption_events(old(self)@, result),
    {
        match result.failure {
            None => {
                match self.settlement.note_confirmed(
                    result.id.as_str(),
                    result.tx_hash.clone(),
                    result.block_number,
                    now_ms,
                ) {
                    None => (None, service::no_event()),
                    Some(payout) => {
                        let mut message = text::join(
                            "redeemed settled position: +",
                            payout.text().as_str(),
                        );
                        message.append(" USDC on-chain (claim ");
                        message.append(result.id.as_str());
                        message.append(", tx ");
                        message.append(
                            match &result.tx_hash {
                                Some(t) => t.as_str(),
                                None => "n/a",
                            },
                        );
                        message.append(")");
                        (
                            Some(payout),
                            service::one_event(
                                Event::RiskAlert { code: CoreErrorCode::Internal, message },
                            ),
                        )
                    },
                }
            },
            Some(failure) => {
                let mut message = text::join("redemption of claim ", result.id.as_str());
                message.append(" failed (");
                let manual = failure.manual || match self.settlement.claim(result.id.as_str()) {
                    Some(c) => c.manual,
                    None => false,
                };
                message.append(
                    if manual {
                        "manual redemption required"
                    } else {
                        "will retry"
                    },
                );
                message.append("): ");
                message.append(failure.message.as_str());
                let _ = self.settlement.note_failure(result.id.as_str(), &failure, now_ms);
                let events = self.emit_error_at(
                    CoreError::new(CoreErrorCode::VenueError, message),
                    now_ms,
                );
                (None, events)
            },
        }
    }

    /// The kernel's own answer to a redemption, where there is no chain to redeem on.
    pub fn simulated_redemption(&self, request: &RedemptionRequest, now_ms: i64) -> (r:
        RedemptionResult)
        requires
            self.wf(),
        ensures
            r.id@ == request.id@,
            r.condition_id@ == request.condition_id@,
            r.block_number is None,
            r.at_ms == now_ms,
            match simulated_failure(self@, request.id@) {
                Some(message) => {
                    &&& r.failure matches Some(f)
                    &&& f.message@ == message
                    &&& f.manual == self@.config.dry_redeem_manual
                    &&& r.tx_hash is None
                },
                None => {
                    &&& r.failure is None
                    &&& r.tx_hash matches Some(t)
                    &&& t@ == "dry-simulated"@
                },
            },
    {
        let attempts: u32 = match self.settlement.claim(request.id.as_str()) {
            Some(c) => c.attempts,
            None => 0,
        };
        let failure = if attempts <= self.config.dry_redeem_fail {
            let mut message = text::join(
                "dry-simulated redemption failure (attempt ",
                text::write_u64(attempts as u64).as_str(),
            );
            message.append(" of ");
            message.append(text::write_u64(self.config.dry_redeem_fail as u64).as_str());
            message.append(" injected)");
            Some(RedemptionFailure { message, manual: self.config.dry_redeem_manual })
        } else {
            None
        };
        let tx_hash = if failure.is_none() {
            Some("dry-simulated".to_owned())
        } else {
            None
        };
        RedemptionResult {
            id: request.id.clone(),
            condition_id: request.condition_id.clone(),
            tx_hash,
            block_number: None,
            failure,
            at_ms: now_ms,
        }
    }
}

/// A redemption that is reported twice pays once: the second report finds nothing owed.
pub proof fn law_a_redemption_credits_once(m: CoreModel, result: RedemptionResult, now_ms: i64)
    requires
        result.failure is None,
    ensures
        redemption_credit(
            redemption_taken(m, result, now_ms).settlement,
            result.id@,
            false,
        ) is None,
        redemption_events(redemption_taken(m, result, now_ms), result) == Seq::<
            EventModel,
        >::empty(),
{
}

/// A redemption moves money and makes none: the cash that it brings is what stops being owed, so
/// that the cash and what is owed stay the same together. One that fails moves nothing.
pub proof fn law_a_redemption_turns_what_is_owed_into_cash(
    m: CoreModel,
    result: RedemptionResult,
    now_ms: i64,
)
    requires
        settlement::book_inv(m.settlement),
    ensures
        settlement::owed(m.settlement) == settlement::owed(
            redemption_taken(m, result, now_ms).settlement,
        ) + match redemption_credit(m.settlement, result.id@, result.failure is Some) {
            Some(cash) => cash@,
            None => 0,
        },
{
    match result.failure {
        None => {
            settlement_laws::law_a_redemption_pays_once(
                m.settlement,
                result.id@,
                model::opt_text(result.tx_hash),
                result.block_number,
                now_ms,
                None,
                None,
                now_ms,
            );
        },
        Some(f) => {
            settlement_laws::law_only_bookings_and_redemptions_move_the_receivable(
                m.settlement,
                BookCall::NoteFailure {
                    id: result.id@,
                    message: f.message@,
                    manual: f.manual,
                    now_ms,
                },
            );
        },
    }
}

/// A redemption that failed brings no cash, and what is owed stays owed.
pub proof fn law_a_failed_redemption_stays_owed(m: CoreModel, result: RedemptionResult, now_ms: i64)
    requires
        result.failure is Some,
    ensures
        redemption_credit(m.settlement, result.id@, true) is None,
        redemption_taken(m, result, now_ms).settlement.claims.dom() == m.settlement.claims.dom(),
        forall|k: Seq<char>| #[trigger]
            m.settlement.claims.dom().contains(k) ==> redemption_taken(
                m,
                result,
                now_ms,
            ).settlement.claims[k].payout_usd == m.settlement.claims[k].payout_usd,
        redemption_taken(m, result, now_ms).kill_reason == m.kill_reason,
{
    assert(redemption_taken(m, result, now_ms).settlement.claims.dom()
        =~= m.settlement.claims.dom());
}

/// A redemption never holds up trading, whatever came of it: but for what is owed and the last
/// error, the kernel is left as it was.
pub proof fn law_a_redemption_leaves_trading_alone(
    m: CoreModel,
    result: RedemptionResult,
    now_ms: i64,
)
    ensures
        redemption_taken(m, result, now_ms) == (CoreModel {
            settlement: redemption_taken(m, result, now_ms).settlement,
            last_error: redemption_taken(m, result, now_ms).last_error,
            ..m
        }),
{
}

// ---------------------------------------------------------------------------------------------
// The kernel's own verdict

/// What a token is worth where the kernel itself decides: the middle of its book, or the latest
/// price of the first position on it where there is no book to speak of.
pub open spec fn own_price(
    book_mid: Option<Decimal>,
    positions: Seq<OpenPosition>,
    token: Seq<char>,
) -> Decimal {
    if book_mid is Some && book_mid->0@ > 0 {
        book_mid->0
    } else {
        match exits::position_on(positions, token) {
            Some(i) => positions[i].current_price,
            None => Decimal::spec_zero(),
        }
    }
}

/// What the first `n` tokens are worth.
pub open spec fn own_prices(
    tokens: Seq<Seq<char>>,
    mids: Seq<Option<Decimal>>,
    positions: Seq<OpenPosition>,
) -> Seq<Decimal> {
    Seq::new(tokens.len(), |i: int| own_price(mids[i], positions, tokens[i]))
}

/// The place of the token that is worth most, the first one of several; none where none is worth
/// anything.
pub open spec fn favourite(prices: Seq<Decimal>) -> Option<int>
    decreases prices.len(),
{
    if prices.len() == 0 {
        None
    } else {
        let best = favourite(prices.drop_last());
        let floor = match best {
            Some(i) => prices[i]@,
            None => 0,
        };
        if prices.last()@ > floor {
            Some(prices.len() - 1)
        } else {
            best
        }
    }
}

/// One half.
pub open spec fn half() -> Decimal {
    Decimal::of((5, 1))
}

/// The token that the kernel's own verdict pays: the one that is worth most, where that is above
/// one half.
pub open spec fn own_winner(tokens: Seq<Seq<char>>, prices: Seq<Decimal>) -> Option<Seq<char>> {
    match favourite(prices) {
        Some(i) => if prices[i]@ > half()@ {
            Some(tokens[i])
        } else {
            None
        },
        None => None,
    }
}

/// The payout of a token under the kernel's own verdict.
pub open spec fn own_payout(winner: Option<Seq<char>>, token: Seq<char>) -> Decimal {
    if winner == Some(token) {
        Decimal::of((1, 0))
    } else {
        Decimal::spec_zero()
    }
}

proof fn lemma_favourite(prices: Seq<Decimal>)
    ensures
        match favourite(prices) {
            Some(i) => 0 <= i < prices.len() && prices[i]@ > 0 && forall|j: int|
                0 <= j < prices.len() ==> (#[trigger] prices[j])@ <= prices[i]@,
            None => forall|j: int| 0 <= j < prices.len() ==> (#[trigger] prices[j])@ <= 0,
        },
    decreases prices.len(),
{
    if prices.len() > 0 {
        let front = prices.drop_last();
        lemma_favourite(front);
        assert forall|j: int| 0 <= j < front.len() implies #[trigger] prices[j] == front[j] by {}
    }
}

impl Core {
    /// The kernel's own verdict on a market, where there is no venue to give one: the token that is
    /// worth most pays one a share, and where none is worth more than one half nobody is paid. The
    /// middle of each token's book stands at the token's place.
    pub fn dry_resolution(
        &self,
        query: &SettlementQuery,
        mids: &Vec<Option<Decimal>>,
        positions: &Vec<OpenPosition>,
    ) -> (r: Option<MarketResolution>)
        requires
            mids@.len() == query.token_ids@.len(),
        ensures
            match r {
                None => query.token_ids@.len() == 0,
                Some(x) => {
                    let tokens = model::texts(query.token_ids@);
                    let winner = own_winner(tokens, own_prices(tokens, mids@, positions@));
                    &&& tokens.len() > 0
                    &&& x.condition_id@ == query.condition_id@
                    &&& x.resolved
                    &&& !x.neg_risk
                    &&& x.source@ == "core-dry"@
                    &&& model::opt_text(x.winning_token) == winner
                    &&& x.payouts@.len() == tokens.len()
                    &&& forall|i: int|
                        0 <= i < tokens.len() ==> (#[trigger] x.payouts@[i]).0@ == tokens[i]
                            && x.payouts@[i].1 == own_payout(winner, tokens[i])
                },
            },
    {
        let ghost tokens = model::texts(query.token_ids@);
        let ghost prices = own_prices(tokens, mids@, positions@);
        let n: usize = query.token_ids.len();
        if n == 0 {
            return None;
        }
        let mut at: Option<usize> = None;
        let mut best = Decimal::zero();
        let mut i: usize = 0;
        proof {
            decimal::lemma_zero();
            assert(prices.take(0) =~= Seq::empty());
        }
        while i < n
            invariant
                i <= n,
                n == query.token_ids@.len(),
                mids@.len() == n,
                tokens == model::texts(query.token_ids@),
                prices == own_prices(tokens, mids@, positions@),
                match at {
                    Some(k) => favourite(prices.take(i as int)) == Some(k as int) && k < i && best
                        == prices[k as int],
                    None => favourite(prices.take(i as int)) is None && best@ == 0,
                },
            decreases n - i,
        {
            let token = &query.token_ids[i];
            let mid_shown = match mids[i] {
                Some(m) => m.is_positive(),
                None => false,
            };
            let price = if mid_shown {
                match mids[i] {
                    Some(m) => m,
                    None => Decimal::zero(),
                }
            } else {
                match exits::find_on(positions, token.as_str()) {
                    Some(k) => positions[k].current_price,
                    None => Decimal::zero(),
                }
            };
            proof {
                assert(price == prices[i as int]);
                assert(prices.take(i + 1).drop_last() =~= prices.take(i as int));
                assert(prices.take(i + 1).last() == price);
            }
            if best.less(price) {
                best = price;
                at = Some(i);
            }
            i = i + 1;
        }
        proof {
            assert(prices.take(i as int) =~= prices);
        }
        let pays = Decimal::new(5, 1).less(best);
        let winner: Option<usize> = if pays {
            at
        } else {
            None
        };
        proof {
            lemma_favourite(prices);
            lemma_half();
        }
        let ghost won = own_winner(tokens, prices);
        assert(match winner {
            Some(k) => won == Some(tokens[k as int]),
            None => won is None,
        });
        let mut payouts: Vec<(String, Decimal)> = Vec::new();
        let mut j: usize = 0;
        while j < n
            invariant
                j <= n,
                n == query.token_ids@.len(),
                tokens == model::texts(query.token_ids@),
                winner matches Some(k) ==> k < n,
                match winner {
                    Some(k) => won == Some(tokens[k as int]),
                    None => won is None,
                },
                payouts@.len() == j,
                forall|i: int|
                    0 <= i < j ==> (#[trigger] payouts@[i]).0@ == tokens[i] && payouts@[i].1
                        == own_payout(won, tokens[i]),
            decreases n - j,
        {
            let token = &query.token_ids[j];
            let wins = match winner {
                Some(k) => text::same_text(token.as_str(), query.token_ids[k].as_str()),
                None => false,
            };
            let payout = if wins {
                Decimal::new(1, 0)
            } else {
                Decimal::zero()
            };
            payouts.push((token.clone(), payout));
            j = j + 1;
        }
        Some(
            MarketResolution {
                condition_id: query.condition_id.clone(),
                resolved: true,
                payouts,
                neg_risk: false,
                source: "core-dry".to_owned(),
                winning_token: match winner {
                    Some(k) => Some(query.token_ids[k].clone()),
                    None => None,
                },
            },
        )
    }
}

proof fn lemma_half()
    ensures
        half()@ > 0,
{
    decimal::lemma_pow10_positive(27);
    decimal::lemma_parts_of((5, 1));
}

// ---------------------------------------------------------------------------------------------
// Finishing what was interrupted

/// A settlement whose close is to be finished.
#[derive(Debug)]
pub struct Recovery {
    pub position_id: String,
    pub key: String,
    pub payout_per_share: Decimal,
    pub at_ms: i64,
}

/// What an operator is told of closes that were finished.
pub open spec fn recovered_text(n: usize) -> Seq<char> {
    "recovered "@ + text::nat_text(n as nat)
        + " settled position(s) whose close was interrupted — redeemed claims unaffected"@
}

/// A recovery finishes the close of a position, at what its settlement recorded.
pub open spec fn recovers(m: BookModel, x: Recovery, p: OpenPosition) -> bool {
    &&& x.position_id@ == p.id@
    &&& x.key@ == settlement::position_key(p)
    &&& m.applied.dom().contains(x.key@)
    &&& x.payout_per_share == m.applied[x.key@].payout_per_share
    &&& x.at_ms == m.applied[x.key@].applied_at_ms
}

impl Core {
    /// The settlements whose close never became durable, in the order of their positions: each
    /// position is still open, was settled before, and is closed now at the price that was booked.
    pub fn recover_settlements(&self, positions: &Vec<OpenPosition>) -> (r: Vec<Recovery>)
        requires
            self.wf(),
        ensures
            ({
                let stale = positions@.filter(
                    |p: OpenPosition| settlement::unfinished(self@.settlement, p),
                );
                &&& r@.len() == stale.len()
                &&& forall|i: int|
                    0 <= i < stale.len() ==> recovers(
                        self@.settlement,
                        #[trigger] r@[i],
                        stale[i],
                    )
            }),
    {
        let ghost stale = positions@.filter(
            |p: OpenPosition| settlement::unfinished(self@.settlement, p),
        );
        let found = self.settlement.recover(positions);
        proof {
            assert(found@.map_values(|p: &OpenPosition| *p) == stale);
            assert forall|i: int| 0 <= i < stale.len() implies settlement::unfinished(
                self@.settlement,
                #[trigger] stale[i],
            ) by {
                positions@.lemma_filter_pred(
                    |p: OpenPosition| settlement::unfinished(self@.settlement, p),
                    i,
                );
            }
        }
        let mut out: Vec<Recovery> = Vec::new();
        let mut i: usize = 0;
        while i < found.len()
            invariant
                self.wf(),
                i <= found@.len(),
                found@.map_values(|p: &OpenPosition| *p) == stale,
                forall|i: int|
                    0 <= i < stale.len() ==> settlement::unfinished(
                        self@.settlement,
                        #[trigger] stale[i],
                    ),
                out@.len() == i,
                forall|j: int|
                    0 <= j < i ==> recovers(self@.settlement, #[trigger] out@[j], stale[j]),
            decreases found@.len() - i,
        {
            let p = found[i];
            assert(stale[i as int] == *p);
            let key = settlement::settlement_key(p);
            match self.settlement.record(key.as_str()) {
                Some(record) => {
                    out.push(
                        Recovery {
                            position_id: p.id.clone(),
                            key,
                            payout_per_share: record.payout_per_share,
                            at_ms: record.applied_at_ms,
                        },
                    );
                },
                None => {
                    assert(false);
                },
            }
            i = i + 1;
        }
        out
    }

    /// Says that interrupted closes were finished.
    pub fn tell_recovered(&self, n: usize) -> (r: Vec<Event>)
        ensures
            service::events_model(r@) == if n > 0 {
                seq![
                    EventModel::RiskAlert {
                        code: CoreErrorCode::Internal,
                        message: recovered_text(n),
                    },
                ]
            } else {
                Seq::empty()
            },
    {
        if n == 0 {
            return service::no_event();
        }
        let mut message = text::join("recovered ", text::write_u64(n as u64).as_str());
        message.append(
            " settled position(s) whose close was interrupted — redeemed claims unaffected",
        );
        self.emit_risk_alert(CoreErrorCode::Internal, message)
    }
}

// ---------------------------------------------------------------------------------------------
// Asking beforehand

impl Core {
    /// Commits the settlement of one position, where no sum and no count of it leaves its range;
    /// else nothing changes.
    pub fn checked_settle_position(
        &mut self,
        p: &OpenPosition,
        resolution: &MarketResolution,
        now_ms: i64,
    ) -> (r: Option<SettleStep>)
        requires
            old(self).wf(),
        ensures
            final(self).wf(),
            match r {
                Some(step) => position_settled(
                    old(self)@,
                    final(self)@,
                    step,
                    *p,
                    *resolution,
                    now_ms,
                ),
                None => {
                    &&& !settle_ok(old(self)@, *p, *resolution, now_ms)
                    &&& final(self)@ == old(self)@
                },
            },
    {
        if text::same_text(p.condition_id.as_str(), resolution.condition_id.as_str()) {
            if let Some(price) = resolution.payout_per_share(p.token_id.as_str()) {
                if !p.shares.max(Decimal::zero()).can_times(price) {
                    return None;
                }
            }
        }
        let fits = match settlement::booking_for(p, resolution) {
            Some(booking) => self.settlement.book_fits(&booking, resolution, now_ms),
            None => true,
        };
        if fits {
            Some(self.settle_position(p, resolution, now_ms))
        } else {
            None
        }
    }

    /// Is done with a verdict, where the sum of what it paid stays in range; else nothing changes.
    pub fn checked_finish_resolution(
        &mut self,
        resolution: &MarketResolution,
        settled: usize,
        payouts: &Vec<Decimal>,
        unpriced: &Vec<String>,
        now_ms: i64,
    ) -> (r: Option<Vec<Event>>)
        requires
            old(self).wf(),
        ensures
            final(self).wf(),
            match r {
                Some(events) => {
                    &&& decimal::total_ok(payouts@)
                    &&& final(self)@ == resolution_done(
                        old(self)@,
                        *resolution,
                        model::texts(unpriced@),
                        now_ms,
                    )
                    &&& service::events_model(events@) == resolution_events(
                        *resolution,
                        settled,
                        decimal::total(payouts@),
                        model::texts(unpriced@),
                    )
                },
                None => !decimal::total_ok(payouts@) && final(self)@ == old(self)@,
            },
    {
        if decimal::sums_fit(payouts) {
            Some(self.finish_resolution(resolution, settled, payouts, unpriced, now_ms))
        } else {
            None
        }
    }
}

} // verus!
