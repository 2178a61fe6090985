//! What a verdict, a redemption and a restart leave behind, and what is told of them.
use vstd::prelude::*;

use crate::audit;
use crate::decimal;
use crate::decimal::Decimal;
use crate::fills;
use crate::fills::LateFillModel;
use crate::lifecycle;
use crate::lifecycle::DailyRoll;
use crate::limits;
use crate::model;
use crate::model::{
    CoreErrorCode, EventModel, MarketResolution, OpenPosition, RedemptionResult, SettlementQueryModel,
    TrackedOrderModel,
};
use crate::orders;
use crate::service;
use crate::service::CoreModel;
use crate::settlement;
use crate::settlement::{BookModel, BookingModel, LineModel, QueryModel};
use crate::settlement_laws;
use crate::settling;
use crate::settling::{Recovery, SettleStep};
use crate::startup;
use crate::str_map;
use crate::text;
use crate::views;
use crate::views::StrategyInfoModel;

verus! {

// ---------------------------------------------------------------------------------------------
// What a text names

/// A text names each text of a list.
pub open spec fn names_each(s: Seq<char>, parts: Seq<Seq<char>>) -> bool {
    forall|i: int| 0 <= i < parts.len() ==> text::occurs(s, #[trigger] parts[i])
}

proof fn lemma_inside(a: Seq<char>, b: Seq<char>, part: Seq<char>)
    ensures
        text::occurs(part, part),
        text::occurs(a, part) ==> text::occurs(a + b, part),
        text::occurs(b, part) ==> text::occurs(a + b, part),
{
    assert(part.subrange(0, part.len() as int) =~= part);
    assert(text::occurs_at(part, part, 0));
    if text::occurs(a, part) {
        let at = choose|at: int| text::occurs_at(a, part, at);
        assert((a + b).subrange(at, at + part.len()) =~= part);
        assert(text::occurs_at(a + b, part, at));
    }
    if text::occurs(b, part) {
        let at = choose|at: int| text::occurs_at(b, part, at);
        assert((a + b).subrange(a.len() + at, a.len() + at + part.len()) =~= part);
        assert(text::occurs_at(a + b, part, a.len() + at));
    }
}

/// A list that is written out with a separator names each of its texts.
pub proof fn law_a_written_list_names_each(parts: Seq<Seq<char>>, sep: Seq<char>)
    ensures
        names_each(text::joined(parts, sep), parts),
    decreases parts.len(),
{
    let s = text::joined(parts, sep);
    if parts.len() == 1 {
        lemma_inside(s, s, parts[0]);
    } else if parts.len() > 1 {
        law_a_written_list_names_each(parts.drop_last(), sep);
        let head = text::joined(parts.drop_last(), sep);
        assert forall|i: int| 0 <= i < parts.len() implies text::occurs(s, #[trigger] parts[i]) by {
            if i < parts.len() - 1 {
                assert(parts.drop_last()[i] == parts[i]);
            }
            lemma_inside(head, sep, parts[i]);
            lemma_inside(head + sep, parts.last(), parts[i]);
        }
    }
}

/// A written list is as long as its texts and what stands between them: nothing is said twice.
pub proof fn law_a_written_list_says_nothing_twice(parts: Seq<Seq<char>>, sep: Seq<char>, t: Seq<char>)
    requires
        parts.len() > 0,
    ensures
        text::joined(parts.push(t), sep).len() == text::joined(parts, sep).len() + sep.len() + t.len(),
        text::starts(text::joined(parts.push(t), sep), text::joined(parts, sep)),
{
    let all = parts.push(t);
    assert(all.drop_last() =~= parts);
    let s = text::joined(parts, sep);
    assert((s + sep + t).subrange(0, s.len() as int) =~= s);
}

/// The beginning of a text is the longest one that fits.
pub proof fn law_a_beginning_is_as_long_as_it_may_be(s: Seq<char>, n: usize)
    ensures
        text::starts(s, text::beginning(s, n)),
        text::beginning(s, n).len() <= n,
        text::beginning(s, n).len() == n || text::beginning(s, n) == s,
{
    assert(s.subrange(0, s.len() as int) =~= s);
    if s.len() > n {
        assert(s.subrange(0, n as int) =~= s.take(n as int));
    }
}

// ---------------------------------------------------------------------------------------------
// Verdicts

/// A verdict answers its market's question: nothing is outstanding and the market is asked about again
/// after the usual wait. It is forgotten only where it has resolved and nobody holds it; the others are
/// left alone, and so is what is owed.
pub proof fn law_a_verdict_is_heard(
    m: BookModel,
    r: MarketResolution,
    positions: Seq<OpenPosition>,
    now_ms: i64,
    other: Seq<char>,
)
    requires
        i64::MIN <= now_ms + settlement::REQUERY_MS <= i64::MAX,
        other != r.condition_id@,
    ensures
        ({
            let k = r.condition_id@;
            let after = settling::resolution_heard(m, r, positions, now_ms);
            &&& after.queries.dom().contains(k) <==> m.queries.dom().contains(k) && !(r.resolved
                && !settling::holds_market(positions, k))
            &&& after.queries.dom().contains(k) ==> {
                let q = after.queries[k];
                &&& q.sent_at_ms == 0
                &&& q.next_query_ms == now_ms + settlement::REQUERY_MS
                &&& q.token_ids == m.queries[k].token_ids
                &&& q.expires_at_ms == m.queries[k].expires_at_ms
                &&& q.first_sent_ms == m.queries[k].first_sent_ms
                &&& m.queries[k].answers < u32::MAX ==> q.answers == m.queries[k].answers + 1
            }
            &&& after.queries.dom().contains(other) <==> m.queries.dom().contains(other)
            &&& m.queries.dom().contains(other) ==> after.queries[other] == m.queries[other]
            &&& after == (BookModel { queries: after.queries, ..m })
        }),
{
    lemma_held_on(positions, r.condition_id@);
}

proof fn lemma_held_on(positions: Seq<OpenPosition>, k: Seq<char>)
    ensures
        settling::held_on(positions, k).len() > 0 <==> settling::holds_market(positions, k),
    decreases positions.len(),
{
    if positions.len() > 0 {
        let init = positions.drop_last();
        lemma_held_on(init, k);
        if settling::holds_market(init, k) {
            let i = choose|i: int| 0 <= i < init.len() && (#[trigger] init[i]).condition_id@ == k;
            assert(positions[i].condition_id@ == k);
        }
        if settling::holds_market(positions, k) && positions.last().condition_id@ != k {
            let i = choose|i: int|
                0 <= i < positions.len() && (#[trigger] positions[i]).condition_id@ == k;
            assert(init[i].condition_id@ == k);
        }
        if positions.last().condition_id@ == k {
            assert(positions[positions.len() - 1].condition_id@ == k);
        }
    }
}

/// Once every position of a market is settled the market is forgotten, and nothing else changes. One
/// that the verdict does not price keeps the market watched and is the last error.
pub proof fn law_a_settled_market_is_forgotten(
    m: CoreModel,
    r: MarketResolution,
    unpriced: Seq<Seq<char>>,
    now_ms: i64,
)
    ensures
        ({
            let after = settling::resolution_done(m, r, unpriced, now_ms);
            if unpriced.len() == 0 {
                &&& after.settlement.queries == m.settlement.queries.remove(r.condition_id@)
                &&& after.last_error == m.last_error
                &&& after.settlement == (BookModel {
                    queries: after.settlement.queries,
                    ..m.settlement
                })
            } else {
                &&& after.settlement == m.settlement
                &&& after.last_error matches Some(e) && e.ts_ms == now_ms && e.code
                    == CoreErrorCode::Internal && names_each(e.message, unpriced)
                    && text::occurs(e.message, r.condition_id@)
            }
        }),
{
    lemma_left_open(r, unpriced);
}

proof fn lemma_left_open(r: MarketResolution, unpriced: Seq<Seq<char>>)
    ensures
        names_each(settling::left_open_text(r, unpriced), unpriced),
        text::occurs(settling::left_open_text(r, unpriced), r.condition_id@),
{
    let k = r.condition_id@;
    let s1 = "settlement: resolution of "@;
    let s2 = s1 + k;
    let s3 = s2 + " (source "@;
    let s4 = s3 + r.source@;
    let s5 = s4 + ") prices no outcome for "@;
    let list = text::joined(unpriced, ", "@);
    let s6 = s5 + list;
    lemma_inside(s1, k, k);
    lemma_inside(s2, " (source "@, k);
    lemma_inside(s3, r.source@, k);
    lemma_inside(s4, ") prices no outcome for "@, k);
    lemma_inside(s5, list, k);
    lemma_inside(s6, " — left open"@, k);
    law_a_written_list_names_each(unpriced, ", "@);
    assert forall|i: int| 0 <= i < unpriced.len() implies text::occurs(
        settling::left_open_text(r, unpriced),
        #[trigger] unpriced[i],
    ) by {
        lemma_inside(s5, list, unpriced[i]);
        lemma_inside(s6, " — left open"@, unpriced[i]);
    }
}

/// What a verdict came to is told: how many positions it settled, on which market and for how much,
/// and then what it left open. A verdict that did neither is not told.
pub proof fn law_a_settlement_is_told(
    r: MarketResolution,
    settled: usize,
    payout: Decimal,
    unpriced: Seq<Seq<char>>,
)
    ensures
        ({
            let told = settling::resolution_events(r, settled, payout, unpriced);
            &&& told.len() == (if settled > 0 {
                1int
            } else {
                0
            }) + (if unpriced.len() > 0 {
                1int
            } else {
                0
            })
            &&& settled > 0 ==> (told[0] matches EventModel::RiskAlert { code, message } && code
                == CoreErrorCode::Internal && names_each(
                message,
                seq![text::nat_text(settled as nat), r.condition_id@, decimal::text_of(payout)],
            ))
            &&& unpriced.len() > 0 ==> (told.last() matches EventModel::Error { error } && error.code
                == CoreErrorCode::Internal && names_each(error.message, unpriced))
        }),
{
    lemma_left_open(r, unpriced);
    let n = text::nat_text(settled as nat);
    let k = r.condition_id@;
    let usd = decimal::text_of(payout);
    let s1 = "settled "@;
    let s2 = s1 + n;
    let s3 = s2 + " position(s) on "@;
    let s4 = s3 + k;
    let s5 = s4 + " — "@;
    let s6 = s5 + usd;
    lemma_inside(s1, n, n);
    lemma_inside(s2, " position(s) on "@, n);
    lemma_inside(s3, k, n);
    lemma_inside(s4, " — "@, n);
    lemma_inside(s5, usd, n);
    lemma_inside(s6, " USDC receivable pending redemption"@, n);
    lemma_inside(s3, k, k);
    lemma_inside(s4, " — "@, k);
    lemma_inside(s5, usd, k);
    lemma_inside(s6, " USDC receivable pending redemption"@, k);
    lemma_inside(s5, usd, usd);
    lemma_inside(s6, " USDC receivable pending redemption"@, usd);
}

/// What the verdict pays for a leg orders the legs: it is the first price that the verdict names for the
/// leg's token, and nothing where it names none.
pub proof fn law_a_leg_is_ranked_by_its_price(p: OpenPosition, r: MarketResolution, i: int)
    requires
        0 <= i < r.payouts@.len(),
        r.payouts@[i].0@ == p.token_id@,
        forall|j: int| 0 <= j < i ==> (#[trigger] r.payouts@[j]).0@ != p.token_id@,
    ensures
        settling::pays(p, r) == r.payouts@[i].1@,
{
    model::lemma_payout_index(r.payouts@, p.token_id@);
}

/// A close that was cut short is made up for at the price and the instant at which the position was
/// booked.
pub proof fn law_a_recovery_closes_as_the_booking_did(
    m: CoreModel,
    after: CoreModel,
    step: SettleStep,
    p: OpenPosition,
    r: MarketResolution,
    x: Recovery,
    now_ms: i64,
)
    requires
        settling::position_settled(m, after, step, p, r, now_ms),
        step is Close,
        settling::recovers(after.settlement, x, p),
    ensures
        (step matches SettleStep::Close { booking } && x.payout_per_share
            == booking@.payout_per_share && x.key@ == booking@.key),
        x.at_ms == now_ms,
        x.position_id@ == p.id@,
{
}

// ---------------------------------------------------------------------------------------------
// Questions and redemptions

/// A question is about a market that is watched, for the tokens that are held there.
pub open spec fn asks_about(question: SettlementQueryModel, q: QueryModel) -> bool {
    &&& question.condition_id == q.condition_id
    &&& question.token_ids == q.token_ids
    &&& question.expires_at_ms == q.expires_at_ms
}

/// A market may be asked about: its last question is answered and its wait is over, or the answer is
/// overdue.
pub open spec fn may_ask(q: QueryModel, now_ms: i64) -> bool {
    ||| q.sent_at_ms == 0 && q.next_query_ms <= now_ms
    ||| q.sent_at_ms > 0 && q.sent_at_ms + settlement::REQUERY_MS < now_ms
    ||| q.sent_at_ms < 0
}

/// A question is asked by some market of a list.
pub open spec fn asked_of_some(
    question: SettlementQueryModel,
    s: Seq<(Seq<char>, QueryModel)>,
    now_ms: i64,
) -> bool {
    exists|j: int|
        0 <= j < s.len() && asks_about(question, (#[trigger] s[j]).1) && may_ask(s[j].1, now_ms)
}

/// Some question is about a market.
pub open spec fn asked_about(questions: Seq<SettlementQueryModel>, q: QueryModel) -> bool {
    exists|i: int| 0 <= i < questions.len() && asks_about(#[trigger] questions[i], q)
}

/// Every market whose time has come is asked about, and no other one; each question names the market,
/// its tokens and its expiry.
pub proof fn law_a_market_is_asked_about_when_its_time_has_come(
    s: Seq<(Seq<char>, QueryModel)>,
    now_ms: i64,
)
    ensures
        ({
            let questions = settlement::questions_due(s, now_ms);
            &&& questions.len() <= s.len()
            &&& forall|i: int|
                0 <= i < questions.len() ==> asked_of_some(#[trigger] questions[i], s, now_ms)
            &&& forall|j: int|
                0 <= j < s.len() && may_ask((#[trigger] s[j]).1, now_ms) ==> asked_about(
                    questions,
                    s[j].1,
                )
        }),
    decreases s.len(),
{
    if s.len() > 0 {
        let init = s.drop_last();
        law_a_market_is_asked_about_when_its_time_has_come(init, now_ms);
        let rest = settlement::questions_due(init, now_ms);
        let all = settlement::questions_due(s, now_ms);
        assert forall|i: int| 0 <= i < all.len() implies asked_of_some(
            #[trigger] all[i],
            s,
            now_ms,
        ) by {
            if i < rest.len() {
                assert(asked_of_some(rest[i], init, now_ms));
                let j = choose|j: int|
                    0 <= j < init.len() && asks_about(rest[i], (#[trigger] init[j]).1) && may_ask(
                        init[j].1,
                        now_ms,
                    );
                assert(asks_about(all[i], s[j].1));
            } else {
                assert(asks_about(all[i], s[s.len() - 1].1));
            }
        }
        assert forall|j: int| 0 <= j < s.len() && may_ask((#[trigger] s[j]).1, now_ms) implies
            asked_about(all, s[j].1) by {
            if j < init.len() {
                assert(may_ask(init[j].1, now_ms));
                let i = choose|i: int| 0 <= i < rest.len() && asks_about(#[trigger] rest[i], s[j].1);
                assert(asks_about(all[i], s[j].1));
            } else {
                assert(asks_about(all[all.len() - 1], s[j].1));
            }
        }
    }
}

/// A market that was asked about is not asked again at once, and its first question keeps its instant.
pub proof fn law_a_question_is_not_repeated_at_once(q: QueryModel, now_ms: i64)
    requires
        now_ms > 0,
        may_ask(q, now_ms),
    ensures
        ({
            let after = settlement::query_step(q, now_ms);
            &&& after.sent_at_ms == now_ms
            &&& !may_ask(after, now_ms)
            &&& settlement::query_step(after, now_ms) == after
            &&& q.first_sent_ms != 0 ==> after.first_sent_ms == q.first_sent_ms
            &&& q.first_sent_ms == 0 ==> after.first_sent_ms == now_ms
            &&& asks_about(settlement::question(after), q)
        }),
{
}

/// A rehearsed redemption fails as often as it was told to, and then lands: an attempt is failed exactly
/// while no more of them were made than were to fail.
pub proof fn law_a_rehearsed_redemption_fails_as_often_as_asked(m: CoreModel, id: Seq<char>)
    requires
        m.settlement.claims.dom().contains(id),
    ensures
        m.settlement.claims[id].attempts > m.config.dry_redeem_fail <==> settling::simulated_failure(
            m,
            id,
        ) is None,
        m.config.dry_redeem_fail == 0 && m.settlement.claims[id].attempts > 0
            ==> settling::simulated_failure(m, id) is None,
{
}

/// What came of a redemption is told once: the amount where it landed on a claim that is still open,
/// nothing where the claim is gone, and the venue's reason where it failed.
pub proof fn law_a_redemption_is_told(m: CoreModel, result: RedemptionResult)
    ensures
        ({
            let told = settling::redemption_events(m, result);
            match result.failure {
                None => if m.settlement.claims.dom().contains(result.id@) {
                    &&& told.len() == 1
                    &&& told[0] matches EventModel::RiskAlert { code, message } && names_each(
                        message,
                        seq![
                            result.id@,
                            decimal::text_of(m.settlement.claims[result.id@].payout_usd),
                        ],
                    )
                } else {
                    told.len() == 0
                },
                Some(f) => {
                    &&& told.len() == 1
                    &&& told[0] matches EventModel::Error { error } && error.code
                        == CoreErrorCode::VenueError && names_each(
                        error.message,
                        seq![result.id@, f.message@],
                    )
                },
            }
        }),
{
    let id = result.id@;
    match result.failure {
        None => {
            if m.settlement.claims.dom().contains(id) {
                let usd = decimal::text_of(m.settlement.claims[id].payout_usd);
                let tx = match model::opt_text(result.tx_hash) {
                    Some(t) => t,
                    None => "n/a"@,
                };
                let s1 = "redeemed settled position: +"@;
                let s2 = s1 + usd;
                let s3 = s2 + " USDC on-chain (claim "@;
                let s4 = s3 + id;
                let s5 = s4 + ", tx "@;
                let s6 = s5 + tx;
                lemma_inside(s1, usd, usd);
                lemma_inside(s2, " USDC on-chain (claim "@, usd);
                lemma_inside(s3, id, usd);
                lemma_inside(s4, ", tx "@, usd);
                lemma_inside(s5, tx, usd);
                lemma_inside(s6, ")"@, usd);
                lemma_inside(s3, id, id);
                lemma_inside(s4, ", tx "@, id);
                lemma_inside(s5, tx, id);
                lemma_inside(s6, ")"@, id);
            }
        },
        Some(f) => {
            let how = if settling::left_for_good(m.settlement, id, f.manual) {
                "manual redemption required"@
            } else {
                "will retry"@
            };
            let s1 = "redemption of claim "@;
            let s2 = s1 + id;
            let s3 = s2 + " failed ("@;
            let s4 = s3 + how;
            let s5 = s4 + "): "@;
            lemma_inside(s1, id, id);
            lemma_inside(s2, " failed ("@, id);
            lemma_inside(s3, how, id);
            lemma_inside(s4, "): "@, id);
            lemma_inside(s5, f.message@, id);
            lemma_inside(s5, f.message@, f.message@);
        },
    }
}

// ---------------------------------------------------------------------------------------------
// Restarts, orders and lists

/// How many orders of a list work.
pub open spec fn working_count(orders: Seq<TrackedOrderModel>) -> nat
    decreases orders.len(),
{
    if orders.len() == 0 {
        0
    } else {
        working_count(orders.drop_last()) + if orders.last().live {
            1nat
        } else {
            0nat
        }
    }
}

proof fn lemma_working(orders: Seq<TrackedOrderModel>)
    ensures
        lifecycle::working(orders).len() == working_count(orders),
        working_count(orders) > 0 <==> exists|i: int|
            0 <= i < orders.len() && (#[trigger] orders[i]).live,
    decreases orders.len(),
{
    if orders.len() > 0 {
        let init = orders.drop_last();
        lemma_working(init);
        if exists|i: int| 0 <= i < init.len() && (#[trigger] init[i]).live {
            let i = choose|i: int| 0 <= i < init.len() && (#[trigger] init[i]).live;
            assert(orders[i].live);
        }
        if exists|i: int| 0 <= i < orders.len() && (#[trigger] orders[i]).live {
            let i = choose|i: int| 0 <= i < orders.len() && (#[trigger] orders[i]).live;
            if i < init.len() {
                assert(init[i].live);
            }
        }
        if orders.last().live {
            assert(orders[orders.len() - 1].live);
        }
    }
}

/// A restart tells of the fills that it knows and of the orders that still work, and of nothing where
/// there are none.
pub proof fn law_a_restart_is_told(
    applied: usize,
    path: Seq<char>,
    loaded: Seq<TrackedOrderModel>,
)
    ensures
        ({
            let told = lifecycle::restore_events(applied, path, loaded);
            let works = exists|i: int| 0 <= i < loaded.len() && (#[trigger] loaded[i]).live;
            &&& told.len() == (if applied > 0 {
                1int
            } else {
                0
            }) + (if works {
                1int
            } else {
                0
            })
            &&& applied > 0 ==> (told[0] matches EventModel::RiskAlert { code, message } && code
                == CoreErrorCode::Internal && names_each(
                message,
                seq![text::nat_text(applied as nat), path],
            ))
            &&& works ==> (told.last() matches EventModel::RiskAlert { code, message } && code
                == CoreErrorCode::Internal && names_each(
                message,
                seq![
                    text::nat_text(working_count(loaded)),
                    decimal::text_of(
                        decimal::total(audit::commitments(audit::live_buys(loaded))),
                    ),
                ],
            ))
        }),
{
    lemma_working(loaded);
    let n = text::nat_text(applied as nat);
    let s1 = "restored "@;
    let s2 = s1 + n;
    let s3 = s2 + " applied-fill key(s) from "@;
    let s4 = s3 + path;
    let tail = " after restart (duplicate venue trades stay idempotent)"@;
    lemma_inside(s1, n, n);
    lemma_inside(s2, " applied-fill key(s) from "@, n);
    lemma_inside(s3, path, n);
    lemma_inside(s4, tail, n);
    lemma_inside(s3, path, path);
    lemma_inside(s4, tail, path);
    let k = text::nat_text(working_count(loaded));
    let usd = decimal::text_of(decimal::total(audit::commitments(audit::live_buys(loaded))));
    let t1 = "recovered "@;
    let t2 = t1 + k;
    let t3 = t2 + " live order(s) from the order log after restart ("@;
    let t4 = t3 + usd;
    let end = " of BUY notional re-reserved)"@;
    lemma_inside(t1, k, k);
    lemma_inside(t2, " live order(s) from the order log after restart ("@, k);
    lemma_inside(t3, usd, k);
    lemma_inside(t4, end, k);
    lemma_inside(t3, usd, usd);
    lemma_inside(t4, end, usd);
}

/// An order is among the ids of the working ones exactly where an order of that id works.
pub proof fn law_a_working_id_is_of_a_working_order(orders: Seq<TrackedOrderModel>, i: int)
    requires
        0 <= i < orders.len(),
        forall|j: int| 0 <= j < orders.len() && j != i ==> (#[trigger] orders[j]).order_id
            != orders[i].order_id,
    ensures
        orders::working_ids(orders).contains(orders[i].order_id) == orders[i].live,
{
}

/// The rows of the strategies stand in the order of their names, one for each.
pub proof fn law_each_strategy_has_its_row(
    m: CoreModel,
    names: Seq<Seq<char>>,
    enabled: Seq<Seq<char>>,
    infos: Seq<Option<StrategyInfoModel>>,
    positions: Seq<OpenPosition>,
    i: int,
)
    requires
        0 <= i < names.len(),
    ensures
        views::strategy_rows(m, names, enabled, infos, positions).len() == names.len(),
        views::strategy_rows(m, names, enabled, infos, positions)[i].name == names[i],
        views::strategy_rows(m, names, enabled, infos, positions)[i].enabled == enabled.contains(
            names[i],
        ),
{
}

/// In the order of loading no library stands behind one of a later leg.
pub proof fn law_the_shipped_legs_load_in_their_order(
    libs: Seq<Seq<Seq<char>>>,
    i: int,
    j: int,
)
    requires
        startup::in_load_order(libs),
        0 <= i < j < libs.len(),
        libs[i].len() > 0,
        libs[j].len() > 0,
    ensures
        text::occurs(libs[j].last(), "spread_arb"@) ==> text::occurs(libs[i].last(), "spread_arb"@),
        text::occurs(libs[j].last(), "trend_follow"@) ==> text::occurs(libs[i].last(), "spread_arb"@)
            || text::occurs(libs[i].last(), "trend_follow"@),
        text::occurs(libs[j].last(), "mean_reversion"@) ==> text::occurs(
            libs[i].last(),
            "spread_arb"@,
        ) || text::occurs(libs[i].last(), "trend_follow"@) || text::occurs(
            libs[i].last(),
            "mean_reversion"@,
        ),
{
}

/// A settlement that pays nothing opens no claim: where the market has none, the claims stay as they
/// are. One that pays opens a claim on its market.
pub proof fn law_a_worthless_settlement_opens_no_claim(
    m: BookModel,
    b: BookingModel,
    r: MarketResolution,
    now_ms: i64,
)
    requires
        settlement_laws::claims_keyed(m),
        !m.applied.dom().contains(b.key),
        forall|k: Seq<char>| #[trigger]
            m.claims.dom().contains(k) ==> m.claims[k].condition_id != b.condition_id,
    ensures
        ({
            let after = settlement::book_step(m, b, r, now_ms);
            &&& b.payout_usd@ <= 0 ==> after.claims == m.claims
            &&& b.payout_usd@ > 0 ==> opens_claim(m, after, b)
        }),
{
    settlement_laws::lemma_open_claim(m, b.condition_id);
    if b.payout_usd@ > 0 {
        let id = settlement::fresh_claim_id(m, b.condition_id);
        let after = settlement::book_step(m, b, r, now_ms);
        assert(after.claims.dom().contains(id));
        let ids = after.claims[id].position_ids;
        assert(ids[ids.len() - 1] == b.position_id);
        if m.claims.dom().contains(id) {
            assert(ids.len() == m.claims[id].position_ids.len() + 1);
        }
    }
}

/// A book holds a claim on a booking's market that another one did not have as it is.
pub open spec fn opens_claim(m: BookModel, after: BookModel, b: BookingModel) -> bool {
    exists|id: Seq<char>| #[trigger]
        after.claims.dom().contains(id) && after.claims[id].position_ids.contains(b.position_id)
            && !(m.claims.dom().contains(id) && m.claims[id] == after.claims[id])
}

/// A close is written down once, with its position and its instant; one that is known leaves no trace.
pub proof fn law_a_close_is_written_down_once(m: BookModel, key: Seq<char>, now_ms: i64, later_ms: i64)
    ensures
        ({
            let after = settlement::close_step(m, key, now_ms);
            &&& after.closed == m.closed.insert(key)
            &&& settlement::close_step(after, key, later_ms) == after
            &&& m.closed.contains(key) ==> after == m
            &&& !m.closed.contains(key) ==> (m.journal matches Some(lines) ==> (
            after.journal matches Some(more) && more.len() == lines.len() + 1 && more.drop_last()
                == lines && (more.last() matches LineModel::Closed { at_ms, key: k } && at_ms == now_ms
                && k == key)))
            &&& after.claims == m.claims && after.applied == m.applied && after.queries == m.queries
        }),
{
    let after = settlement::close_step(m, key, now_ms);
    if m.closed.contains(key) {
        assert(after.closed =~= m.closed.insert(key));
    } else if m.journal is Some {
        let lines = m.journal->0;
        assert(after.journal->0.drop_last() =~= lines);
    }
}

/// A sweep that freezes trading says so, and one that does not says nothing: the alert and the error
/// come just where trading was free before and is frozen after.
pub proof fn law_a_freeze_is_told(m: CoreModel, code: CoreErrorCode, message: Seq<char>, now_ms: i64)
    ensures
        ({
            let after = service::sweep_failed(m, code, message, now_ms);
            let told = service::sweep_events(m, code, message, now_ms);
            &&& told.len() > 0 <==> m.kill_reason is None && after.kill_reason is Some
            &&& told.len() > 0 ==> told.len() == 2 && (told[1] matches EventModel::Error { error }
                && error.code == CoreErrorCode::KillSwitchActive && after.kill_reason == Some(
                error.message,
            ) && text::occurs(error.message, message))
        }),
{
    let n = text::nat_text(
        service::sweep_counted(m, code, message, now_ms).consecutive_sweep_failures as nat,
    );
    lemma_inside("reconciliation sweep failed "@ + n + " times in a row: "@, message, message);
}

proof fn lemma_more(a: Seq<char>, b: Seq<char>, parts: Seq<Seq<char>>)
    requires
        names_each(a, parts),
    ensures
        names_each(a + b, parts),
        names_each(a + b, parts.push(b)),
{
    assert forall|i: int| 0 <= i < parts.push(b).len() implies text::occurs(
        a + b,
        #[trigger] parts.push(b)[i],
    ) by {
        if i < parts.len() {
            assert(text::occurs(a, parts[i]));
            lemma_inside(a, b, parts[i]);
        } else {
            lemma_inside(a, b, b);
        }
    }
    assert forall|i: int| 0 <= i < parts.len() implies text::occurs(a + b, #[trigger] parts[i]) by {
        lemma_inside(a, b, parts[i]);
    }
}

/// A late fill is told with its order, its trade, its size, what had filled by then, the order's size
/// and what the venue reported.
pub proof fn law_a_late_fill_is_told(f: LateFillModel)
    ensures
        names_each(
            fills::late_fill_text(f),
            seq![
                f.order_id,
                f.trade_id,
                decimal::text_of(f.size),
                decimal::text_of(f.cumulative),
                decimal::text_of(f.order_size),
                decimal::text_of(f.reported_cumulative),
            ],
        ),
{
    let none = Seq::<Seq<char>>::empty();
    let trade = if f.trade_id.len() == 0 {
        "-"@
    } else {
        f.trade_id
    };
    let by = match f.absorbed_by {
        Some(s) => fills::status_name(s),
        None => "live"@,
    };
    let over = if f.overfill {
        "true"@
    } else {
        "false"@
    };
    let p1 = none.push(f.order_id);
    let p2 = p1.push(trade);
    let p3 = p2.push(decimal::text_of(f.size));
    let p4 = p3.push(decimal::text_of(f.cumulative));
    let p5 = p4.push(decimal::text_of(f.order_size));
    let p6 = p5.push(decimal::text_of(f.reported_cumulative));
    let s0 = "late_fill order="@;
    let s1 = s0 + f.order_id;
    let s2 = s1 + " trade="@;
    let s3 = s2 + trade;
    let s4 = s3 + " status="@;
    let s5 = s4 + by;
    let s6 = s5 + " size="@;
    let s7 = s6 + decimal::text_of(f.size);
    let s8 = s7 + " cumulative="@;
    let s9 = s8 + decimal::text_of(f.cumulative);
    let s10 = s9 + "/"@;
    let s11 = s10 + decimal::text_of(f.order_size);
    let s12 = s11 + " reported="@;
    let s13 = s12 + decimal::text_of(f.reported_cumulative);
    let s14 = s13 + " overfill="@;
    lemma_more(s0, f.order_id, none);
    lemma_more(s1, " trade="@, p1);
    lemma_more(s2, trade, p1);
    lemma_more(s3, " status="@, p2);
    lemma_more(s4, by, p2);
    lemma_more(s5, " size="@, p2);
    lemma_more(s6, decimal::text_of(f.size), p2);
    lemma_more(s7, " cumulative="@, p3);
    lemma_more(s8, decimal::text_of(f.cumulative), p3);
    lemma_more(s9, "/"@, p4);
    lemma_more(s10, decimal::text_of(f.order_size), p4);
    lemma_more(s11, " reported="@, p5);
    lemma_more(s12, decimal::text_of(f.reported_cumulative), p5);
    lemma_more(s13, " overfill="@, p6);
    lemma_more(s14, over, p6);
    let all = s14 + over;
    assert(fills::late_fill_text(f) == all);
    assert(text::occurs(all, p6[0]));
    assert(text::occurs(all, p6[1]));
    assert(text::occurs(all, p6[2]));
    assert(text::occurs(all, p6[3]));
    assert(text::occurs(all, p6[4]));
    assert(text::occurs(all, p6[5]));
    if f.trade_id.len() == 0 {
        assert(all.subrange(0, 0) =~= f.trade_id);
        assert(text::occurs_at(all, f.trade_id, 0));
    }
}

/// A new day is told with its number, the equity that it opens with and its cap, and with the result of
/// the day before where there was one.
pub proof fn law_a_new_day_is_told(x: DailyRoll)
    ensures
        names_each(
            lifecycle::roll_text(x),
            seq![
                text::int_text(x.day_index as int),
                decimal::text_of(x.opening_equity_usd),
                decimal::text_of(x.limit_usd),
            ],
        ),
        x.previous_day_index matches Some(day) ==> names_each(
            lifecycle::roll_text(x),
            seq![text::int_text(day as int), decimal::text_of(x.previous_realized_pnl_usd)],
        ),
{
    let none = Seq::<Seq<char>>::empty();
    let day = text::int_text(x.day_index as int);
    let equity = decimal::text_of(x.opening_equity_usd);
    let cap = decimal::text_of(x.limit_usd);
    let all = lifecycle::roll_text(x);
    match x.previous_day_index {
        Some(prev) => {
            let then = text::int_text(prev as int);
            let was = decimal::text_of(x.previous_realized_pnl_usd);
            let tripped = if x.previous_tripped {
                " (TRIPPED: entries were frozen)"@
            } else {
                ""@
            };
            let p1 = none.push(then);
            let p2 = p1.push(was);
            let p3 = p2.push(day);
            let p4 = p3.push(equity);
            let p5 = p4.push(cap);
            let s0 = "daily loss budget: UTC day "@;
            let s1 = s0 + then;
            let s2 = s1 + " closed at $"@;
            let s3 = s2 + was;
            let s4 = s3 + " realized"@;
            let s5 = s4 + tripped;
            let s6 = s5 + " — day "@;
            let s7 = s6 + day;
            let s8 = s7 + " opens with equity $"@;
            let s9 = s8 + equity;
            let s10 = s9 + ", cap $"@;
            lemma_more(s0, then, none);
            lemma_more(s1, " closed at $"@, p1);
            lemma_more(s2, was, p1);
            lemma_more(s3, " realized"@, p2);
            lemma_more(s4, tripped, p2);
            lemma_more(s5, " — day "@, p2);
            lemma_more(s6, day, p2);
            lemma_more(s7, " opens with equity $"@, p3);
            lemma_more(s8, equity, p3);
            lemma_more(s9, ", cap $"@, p4);
            lemma_more(s10, cap, p4);
            assert(all == s10 + cap);
            assert(text::occurs(all, p5[0]));
            assert(text::occurs(all, p5[1]));
            assert(text::occurs(all, p5[2]));
            assert(text::occurs(all, p5[3]));
            assert(text::occurs(all, p5[4]));
        },
        None => {
            let p1 = none.push(day);
            let p2 = p1.push(equity);
            let p3 = p2.push(cap);
            let s0 = "daily loss budget: UTC day "@;
            let s1 = s0 + day;
            let s2 = s1 + " opens with equity $"@;
            let s3 = s2 + equity;
            let s4 = s3 + ", cap $"@;
            let s5 = s4 + cap;
            let end = " (realized loss resets at the UTC day boundary)"@;
            lemma_more(s0, day, none);
            lemma_more(s1, " opens with equity $"@, p1);
            lemma_more(s2, equity, p1);
            lemma_more(s3, ", cap $"@, p2);
            lemma_more(s4, cap, p2);
            lemma_more(s5, end, p3);
            assert(all == s5 + end);
            assert(text::occurs(all, p3[0]));
            assert(text::occurs(all, p3[1]));
            assert(text::occurs(all, p3[2]));
        },
    }
}

/// The summary of the settlements gives the number of the settled positions, of the open claims and of
/// those that are left to the operator, and what is owed in all.
pub proof fn law_the_summary_counts_what_is_open(m: BookModel)
    ensures
        names_each(
            settlement::summary_text(m),
            seq![
                text::nat_text(m.applied.dom().len()),
                text::nat_text(m.claims.dom().len()),
                decimal::text_of(settlement::payouts_sum(str_map::ordered(m.claims))),
                text::nat_text(settlement::count_manual(str_map::ordered(m.claims), true)),
            ],
        ),
{
    let none = Seq::<Seq<char>>::empty();
    let settled = text::nat_text(m.applied.len());
    let open = text::nat_text(m.claims.len());
    let usd = decimal::text_of(settlement::payouts_sum(str_map::ordered(m.claims)));
    let manual = text::nat_text(settlement::count_manual(str_map::ordered(m.claims), true));
    let p1 = none.push(settled);
    let p2 = p1.push(open);
    let p3 = p2.push(usd);
    let p4 = p3.push(manual);
    let s0 = "settled="@;
    let s1 = s0 + settled;
    let s2 = s1 + " pending_redeem="@;
    let s3 = s2 + open;
    let s4 = s3 + " receivable="@;
    let s5 = s4 + usd;
    let s6 = s5 + " manual="@;
    lemma_more(s0, settled, none);
    lemma_more(s1, " pending_redeem="@, p1);
    lemma_more(s2, open, p1);
    lemma_more(s3, " receivable="@, p2);
    lemma_more(s4, usd, p2);
    lemma_more(s5, " manual="@, p3);
    lemma_more(s6, manual, p3);
    let all = settlement::summary_text(m);
    assert(all == s6 + manual);
    assert(text::occurs(all, p4[0]));
    assert(text::occurs(all, p4[1]));
    assert(text::occurs(all, p4[2]));
    assert(text::occurs(all, p4[3]));
}

/// The line of a start gives how many strategies were asked for, how many of them exist, and each one
/// that is enabled.
pub proof fn law_a_start_says_what_it_runs(
    asked: Seq<Seq<char>>,
    registered: Seq<Seq<char>>,
    enabled: Seq<Seq<char>>,
)
    ensures
        ({
            let line = startup::self_check_line(asked, registered, enabled);
            &&& names_each(
                line,
                seq![
                    text::nat_text(asked.len()),
                    text::nat_text(startup::resolved_count(asked, registered)),
                ],
            )
            &&& names_each(line, enabled)
        }),
{
    let none = Seq::<Seq<char>>::empty();
    let n = text::nat_text(asked.len());
    let k = text::nat_text(startup::resolved_count(asked, registered));
    let list = text::joined(enabled, ", "@);
    let s0 = "blitzkrieg-core: strategy startup self-check: requested="@;
    let s1 = s0 + n;
    let s2 = s1 + " resolved="@;
    let s3 = s2 + k;
    let s4 = s3 + " enabled=["@;
    let s5 = s4 + list;
    let p1 = none.push(n);
    let p2 = p1.push(k);
    lemma_more(s0, n, none);
    lemma_more(s1, " resolved="@, p1);
    lemma_more(s2, k, p1);
    lemma_more(s3, " enabled=["@, p2);
    lemma_more(s4, list, p2);
    lemma_more(s5, "]"@, p2);
    let all = startup::self_check_line(asked, registered, enabled);
    assert(all == s5 + "]"@);
    assert(text::occurs(all, p2[0]));
    assert(text::occurs(all, p2[1]));
    law_a_written_list_names_each(enabled, ", "@);
    assert forall|i: int| 0 <= i < enabled.len() implies text::occurs(all, #[trigger] enabled[i]) by {
        lemma_inside(s4, list, enabled[i]);
        lemma_inside(s5, "]"@, enabled[i]);
    }
}

/// A cap that is passed is told with what is used, what would come on top and the cap itself.
pub proof fn law_a_passed_cap_is_told(used: Decimal, incoming: Decimal, cap: Decimal)
    ensures
        names_each(
            limits::over_cap_text(used, incoming, cap),
            seq![decimal::text_of(used), decimal::text_of(incoming), decimal::text_of(cap)],
        ),
{
    let none = Seq::<Seq<char>>::empty();
    let p1 = none.push(decimal::text_of(used));
    let p2 = p1.push(decimal::text_of(incoming));
    let p3 = p2.push(decimal::text_of(cap));
    let s0 = "notional cap ("@;
    let s1 = s0 + decimal::text_of(used);
    let s2 = s1 + "+"@;
    let s3 = s2 + decimal::text_of(incoming);
    let s4 = s3 + " > "@;
    let s5 = s4 + decimal::text_of(cap);
    lemma_more(s0, decimal::text_of(used), none);
    lemma_more(s1, "+"@, p1);
    lemma_more(s2, decimal::text_of(incoming), p1);
    lemma_more(s3, " > "@, p2);
    lemma_more(s4, decimal::text_of(cap), p2);
    lemma_more(s5, ")"@, p3);
    let all = limits::over_cap_text(used, incoming, cap);
    assert(all == s5 + ")"@);
    assert(text::occurs(all, p3[0]));
    assert(text::occurs(all, p3[1]));
    assert(text::occurs(all, p3[2]));
}

} // verus!
