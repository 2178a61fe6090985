//! What a verdict makes of the positions on its market, from the verdict to the redemption.
use vstd::prelude::*;

use crate::decimal;
use crate::decimal::Decimal;
use crate::exits;
use crate::model;
use crate::model::{MarketResolution, OpenPosition};
use crate::service::CoreModel;
use crate::settlement;
use crate::settlement::{BookModel, BookingModel, ClaimModel, QueryModel};
use crate::settlement_laws;
use crate::settling;
use crate::settling::SettleStep;
use crate::str_map;

verus! {

// ---------------------------------------------------------------------------------------------
// What a position is paid

/// The shares that a position holds; none where it holds less than none.
pub open spec fn shares_held(p: OpenPosition) -> int {
    if p.shares@ > 0 {
        p.shares@
    } else {
        0
    }
}

/// A verdict prices a position just where it is on the position's market and names its token.
pub proof fn law_a_verdict_prices_the_tokens_that_it_names(p: OpenPosition, r: MarketResolution)
    ensures
        settling::booking_at(p, r) is Some <==> p.condition_id@ == r.condition_id@ && exists|i: int|
            0 <= i < r.payouts@.len() && (#[trigger] r.payouts@[i]).0@ == p.token_id@,
        settlement::held_outcome(p, r) is Some <==> settling::booking_at(p, r) is Some,
{
    model::lemma_payout_index(r.payouts@, p.token_id@);
}

/// A settlement books the shares that the position holds at that moment, at the payout that the
/// verdict states first for its token, and is worth the one times the other: never more than what is
/// held.
pub proof fn law_a_settlement_pays_for_what_is_held(
    p: OpenPosition,
    r: MarketResolution,
    b: BookingModel,
)
    requires
        settling::booking_at(p, r) == Some(b),
        r.payouts@.len() <= usize::MAX,
    ensures
        b.shares@ == shares_held(p),
        b.outcome_index matches Some(i) && i < r.payouts@.len() && r.payouts@[i as int].0@
            == p.token_id@ && b.payout_per_share == r.payouts@[i as int].1 && forall|j: int|
            0 <= j < i ==> (#[trigger] r.payouts@[j]).0@ != p.token_id@,
        b.shares.well_formed() && b.payout_per_share.well_formed() && b.shares.times_plain(
            b.payout_per_share,
        ) ==> b.payout_usd@ * decimal::one_unit() == shares_held(p) * b.payout_per_share@,
        b.winning <==> b.payout_per_share@ > 0,
        b.position_id == p.id@,
        b.condition_id == p.condition_id@,
        b.token_id == p.token_id@,
        b.strategy == p.strategy@,
        b.asset == p.asset@,
        b.claim_id.len() == 0,
        settlement::held_outcome(p, r) == Some(b.outcome_index->0 as int),
{
    model::lemma_payout_index(r.payouts@, p.token_id@);
    decimal::lemma_zero();
    if b.shares.well_formed() && b.payout_per_share.well_formed() && b.shares.times_plain(
        b.payout_per_share,
    ) {
        decimal::lemma_times_plain(b.shares, b.payout_per_share);
    }
}

/// What was bought, sold and paid before does not matter to a settlement: two positions that hold the
/// same shares of the same token are paid the same.
pub proof fn law_earlier_trades_do_not_change_a_settlement(
    p: OpenPosition,
    q: OpenPosition,
    r: MarketResolution,
)
    requires
        p.shares == q.shares,
        p.token_id@ == q.token_id@,
        p.condition_id@ == q.condition_id@,
    ensures
        settling::booking_at(p, r) is Some <==> settling::booking_at(q, r) is Some,
        settling::booking_at(p, r) is Some ==> {
            let a = settling::booking_at(p, r)->0;
            let b = settling::booking_at(q, r)->0;
            &&& a.shares == b.shares
            &&& a.payout_per_share == b.payout_per_share
            &&& a.payout_usd == b.payout_usd
            &&& a.winning == b.winning
        },
{
}

/// A position that is settled for the first time is owed for what it holds at its payout, no more and
/// no less, where nothing is rounded; a position that a verdict does not price, or that was settled
/// before, is owed for nothing new.
pub proof fn law_a_settled_position_is_owed_for_once(
    m: CoreModel,
    after: CoreModel,
    step: SettleStep,
    p: OpenPosition,
    r: MarketResolution,
    now_ms: i64,
)
    requires
        settling::position_settled(m, after, step, p, r, now_ms),
        settlement_laws::claims_keyed(m.settlement),
        p.shares.well_formed(),
        p.shares@ >= 0,
        settling::booking_at(p, r) matches Some(b) ==> {
            &&& b.payout_per_share.well_formed()
            &&& b.payout_per_share@ >= 0
            &&& p.shares.times_plain(b.payout_per_share)
            &&& settlement::target_claim(m.settlement, b) matches Some(id) ==> (
            m.settlement.claims.dom().contains(id) ==> m.settlement.claims[id].payout_usd.well_formed()
                && m.settlement.claims[id].payout_usd.plus_plain(b.payout_usd))
        },
    ensures
        match settling::booking_at(p, r) {
            None => after.settlement == m.settlement && step is Unpriced,
            Some(b) => if m.settlement.applied.dom().contains(settlement::position_key(p)) {
                after.settlement == m.settlement && step is Known
            } else {
                &&& step is Close
                &&& after.settlement.applied.dom().contains(settlement::position_key(p))
                &&& (settlement::owed(after.settlement) - settlement::owed(m.settlement))
                    * decimal::one_unit() == p.shares@ * b.payout_per_share@
            },
        },
        after == (CoreModel { settlement: after.settlement, ..m }),
{
    match settling::booking_at(p, r) {
        None => {},
        Some(b) => {
            decimal::lemma_zero();
            decimal::lemma_times_plain(p.shares, b.payout_per_share);
            if !m.settlement.applied.dom().contains(b.key) {
                let (x, y, z) = (p.shares@, b.payout_per_share@, b.payout_usd@);
                assert(z >= 0) by (nonlinear_arith)
                    requires
                        x >= 0,
                        y >= 0,
                        z * 10_000_000_000_000_000_000_000_000_000int == x * y,
                ;
                settlement_laws::law_a_booking_adds_its_payout(m.settlement, b, r, now_ms);
            }
        },
    }
}

/// A booking adds the shares that it pays for to its outcome of the market's claim and to no other
/// outcome, and names its position there.
pub proof fn law_a_claim_collects_the_shares_of_its_bookings(
    m: BookModel,
    b: BookingModel,
    r: MarketResolution,
    now_ms: i64,
    id: Seq<char>,
    k: usize,
)
    requires
        settlement_laws::claims_keyed(m),
        !m.applied.dom().contains(b.key),
        settlement::target_claim(m, b) == Some(id),
        b.outcome_index == Some(k),
        k < r.payouts@.len() <= usize::MAX,
        b.shares.well_formed(),
        m.claims.dom().contains(id) ==> forall|i: int|
            0 <= i < m.claims[id].outcome_shares.len() ==> {
                &&& (#[trigger] m.claims[id].outcome_shares[i]).well_formed()
                &&& m.claims[id].outcome_shares[i].plus_plain(b.shares)
                &&& m.claims[id].outcome_shares[i].plus_plain(Decimal::spec_zero())
            },
    ensures
        ({
            let before = if m.claims.dom().contains(id) {
                m.claims[id].outcome_shares
            } else {
                Seq::empty()
            };
            let c = settlement::book_step(m, b, r, now_ms).claims[id];
            &&& c.outcome_shares.len() >= r.payouts@.len()
            &&& c.outcome_shares.len() >= before.len()
            &&& forall|i: int|
                0 <= i < c.outcome_shares.len() ==> (#[trigger] c.outcome_shares[i])@ == (
                if i < before.len() {
                    before[i]@
                } else {
                    0
                }) + (if i == k {
                    b.shares@
                } else {
                    0
                })
            &&& c.position_ids == (if m.claims.dom().contains(id) {
                m.claims[id].position_ids
            } else {
                Seq::empty()
            }).push(b.position_id)
            &&& settlement::open_claim(m, b.condition_id) == Some(id) || !m.claims.dom().contains(id)
                ==> c.condition_id == b.condition_id
            &&& c.neg_risk == r.neg_risk
        }),
{
    settlement_laws::lemma_open_claim(m, b.condition_id);
    decimal::lemma_zero();
    decimal::lemma_parts_of((0, 0));
    decimal::lemma_zero_plus(b.shares);
    decimal::lemma_zero_plus(Decimal::spec_zero());
    let before = if m.claims.dom().contains(id) {
        m.claims[id].outcome_shares
    } else {
        Seq::empty()
    };
    assert forall|i: int| 0 <= i < before.len() implies (#[trigger] before[i]).spec_plus(b.shares)@
        == before[i]@ + b.shares@ && before[i].spec_plus(Decimal::spec_zero())@ == before[i]@ by {
        decimal::lemma_plus_plain(before[i], b.shares);
        decimal::lemma_plus_plain(before[i], Decimal::spec_zero());
    }
}

/// The token that a market pays for is the one that the verdict names; where it names none, the one
/// that the position holds.
pub proof fn law_a_record_names_the_paying_token(
    m: BookModel,
    b: BookingModel,
    r: MarketResolution,
    now_ms: i64,
)
    ensures
        ({
            let record = settlement::booked_record(m, b, r, now_ms);
            &&& r.winning_token matches Some(t) ==> record.winning_token_id == t@
            &&& r.winning_token is None ==> record.winning_token_id == b.token_id
        }),
{
}

// ---------------------------------------------------------------------------------------------
// Which positions a verdict reaches

/// The positions that a verdict reaches are those on its market, each once and in their order, and
/// every one of them.
pub proof fn law_a_verdict_reaches_every_position_on_its_market(
    positions: Seq<OpenPosition>,
    condition_id: Seq<char>,
)
    ensures
        settling::held_on(positions, condition_id) == positions.filter(
            |p: OpenPosition| p.condition_id@ == condition_id,
        ),
        forall|i: int|
            0 <= i < positions.len() && (#[trigger] positions[i]).condition_id@ == condition_id
                ==> settling::held_on(positions, condition_id).contains(positions[i]),
        forall|i: int|
            0 <= i < settling::held_on(positions, condition_id).len() ==> (
            #[trigger] settling::held_on(positions, condition_id)[i]).condition_id@ == condition_id,
    decreases positions.len(),
{
    let f = |p: OpenPosition| p.condition_id@ == condition_id;
    reveal(Seq::filter);
    if positions.len() > 0 {
        let front = positions.drop_last();
        law_a_verdict_reaches_every_position_on_its_market(front, condition_id);
        let rest = settling::held_on(front, condition_id);
        let all = settling::held_on(positions, condition_id);
        assert forall|i: int|
            0 <= i < positions.len() && (#[trigger] positions[i]).condition_id@
                == condition_id implies all.contains(positions[i]) by {
            if i < front.len() {
                assert(front[i] == positions[i]);
                assert(rest.contains(front[i]));
                let j = choose|j: int| 0 <= j < rest.len() && rest[j] == front[i];
                assert(all[j] == rest[j]);
            } else {
                assert(all[all.len() - 1] == positions[i]);
            }
        }
    }
}

/// A market that ended can have resolved: it is watched, with the token that is held, from its end on
/// and not before. A market without a name, and one whose end lies further behind the entry than can
/// be trusted, is not.
pub proof fn law_an_ended_market_is_watched(
    m: BookModel,
    positions: Seq<OpenPosition>,
    now_ms: i64,
    i: int,
)
    requires
        0 <= i < positions.len(),
    ensures
        settlement::trackable(positions[i], now_ms) <==> {
            &&& positions[i].condition_id@.len() > 0
            &&& positions[i].expires_at_ms <= now_ms
            &&& positions[i].entered_at_ms - positions[i].expires_at_ms
                <= settlement::EXPIRY_TRUST_MS
        },
        positions[i].condition_id@.len() > 0 && positions[i].expires_at_ms <= now_ms
            && positions[i].entered_at_ms - positions[i].expires_at_ms
            <= settlement::EXPIRY_TRUST_MS ==> {
            let q = settlement::track_step(m, positions, now_ms).queries;
            q.dom().contains(positions[i].condition_id@) && q[positions[i].condition_id@].token_ids.contains(
                positions[i].token_id@,
            )
        },
    decreases positions.len(),
{
    let p = positions[i];
    let front = positions.drop_last();
    let before = settlement::watched_all(m.queries, front, now_ms);
    let last = positions.last();
    if i < front.len() {
        law_an_ended_market_is_watched(m, front, now_ms, i);
        assert(front[i] == p);
        if settlement::trackable(p, now_ms) && settlement::trackable(last, now_ms)
            && last.condition_id@ == p.condition_id@ {
            let t = before[p.condition_id@].token_ids;
            let j = choose|j: int| 0 <= j < t.len() && t[j] == p.token_id@;
            assert(t.push(last.token_id@)[j] == p.token_id@);
        }
    } else if settlement::trackable(p, now_ms) {
        if before.dom().contains(p.condition_id@) {
            let t = before[p.condition_id@].token_ids;
            assert(t.push(p.token_id@)[t.len() as int] == p.token_id@);
        } else {
            assert(seq![p.token_id@][0] == p.token_id@);
        }
    }
}

/// A market is watched just as long as a position is on it: once the last one is gone it is asked
/// about no more, and no market that is watched is dropped before.
pub proof fn law_a_market_is_watched_while_it_is_held(
    m: BookModel,
    positions: Seq<OpenPosition>,
    now_ms: i64,
    k: Seq<char>,
)
    ensures
        settling::watch_synced(m, positions, now_ms).queries.dom().contains(k) ==> exists|i: int|
            0 <= i < positions.len() && (#[trigger] positions[i]).condition_id@ == k,
        m.queries.dom().contains(k) && (exists|i: int|
            0 <= i < positions.len() && (#[trigger] positions[i]).condition_id@ == k)
            ==> settling::watch_synced(m, positions, now_ms).queries.dom().contains(k),
        settling::watch_synced(m, positions, now_ms).claims == m.claims,
        settling::watch_synced(m, positions, now_ms).applied == m.applied,
        settling::watch_synced(m, positions, now_ms).closed == m.closed,
{
    settlement_laws::law_only_ended_markets_are_watched(m, positions, now_ms, k);
}

// ---------------------------------------------------------------------------------------------
// The kernel's own verdict

proof fn lemma_half_of_one()
    ensures
        2 * settling::half()@ == decimal::one_unit(),
        Decimal::of((1, 0))@ == decimal::one_unit(),
        Decimal::spec_zero()@ == 0,
{
    decimal::lemma_parts_of((5, 1));
    decimal::lemma_parts_of((1, 0));
    decimal::lemma_zero();
    reveal_with_fuel(decimal::pow10, 30);
}

proof fn lemma_position_on(positions: Seq<OpenPosition>, token: Seq<char>)
    ensures
        match exits::position_on(positions, token) {
            Some(i) => {
                &&& 0 <= i < positions.len()
                &&& positions[i].token_id@ == token
                &&& forall|j: int| 0 <= j < i ==> (#[trigger] positions[j]).token_id@ != token
            },
            None => forall|j: int| 0 <= j < positions.len() ==> (#[trigger] positions[j]).token_id@
                != token,
        },
    decreases positions.len(),
{
    if positions.len() > 0 {
        let front = positions.drop_last();
        lemma_position_on(front, token);
        assert forall|j: int| 0 <= j < front.len() implies #[trigger] positions[j] == front[j] by {}
    }
}

/// A token is worth the middle of its book where there is one; else what the first position on it was
/// last worth, and nothing where nobody holds it.
pub proof fn law_a_token_is_worth_what_its_book_says(
    mid: Option<Decimal>,
    positions: Seq<OpenPosition>,
    token: Seq<char>,
    i: int,
)
    ensures
        mid is Some && mid->0@ > 0 ==> settling::own_price(mid, positions, token) == mid->0,
        !(mid is Some && mid->0@ > 0) && 0 <= i < positions.len() && positions[i].token_id@ == token
            && (forall|j: int| 0 <= j < i ==> (#[trigger] positions[j]).token_id@ != token)
            ==> settling::own_price(mid, positions, token) == positions[i].current_price,
        !(mid is Some && mid->0@ > 0) && (forall|j: int|
            0 <= j < positions.len() ==> (#[trigger] positions[j]).token_id@ != token)
            ==> settling::own_price(mid, positions, token)@ == 0,
{
    lemma_position_on(positions, token);
    decimal::lemma_zero();
}

proof fn lemma_favourite_is_worth_most(prices: Seq<Decimal>)
    ensures
        match settling::favourite(prices) {
            Some(i) => {
                &&& 0 <= i < prices.len()
                &&& prices[i]@ > 0
                &&& forall|j: int| 0 <= j < prices.len() ==> (#[trigger] prices[j])@ <= prices[i]@
                &&& forall|j: int| 0 <= j < i ==> (#[trigger] prices[j])@ < prices[i]@
            },
            None => forall|j: int| 0 <= j < prices.len() ==> (#[trigger] prices[j])@ <= 0,
        },
    decreases prices.len(),
{
    if prices.len() > 0 {
        let front = prices.drop_last();
        lemma_favourite_is_worth_most(front);
        assert forall|j: int| 0 <= j < front.len() implies #[trigger] prices[j] == front[j] by {}
    }
}

/// What a token is worth to the kernel, in units.
pub open spec fn worth(
    tokens: Seq<Seq<char>>,
    mids: Seq<Option<Decimal>>,
    positions: Seq<OpenPosition>,
    i: int,
) -> int {
    settling::own_price(mids[i], positions, tokens[i])@
}

/// The kernel's own verdict pays one a share for a token that is worth more than one half and at
/// least as much as every other token of the market, and nothing for any other token; where some
/// token is worth more than one half, one that is worth most is paid.
pub proof fn law_the_token_that_is_worth_most_is_paid(
    tokens: Seq<Seq<char>>,
    mids: Seq<Option<Decimal>>,
    positions: Seq<OpenPosition>,
)
    requires
        mids.len() == tokens.len(),
        tokens.no_duplicates(),
    ensures
        ({
            let winner = settling::own_winner(
                tokens,
                settling::own_prices(tokens, mids, positions),
            );
            &&& forall|i: int|
                0 <= i < tokens.len() ==> {
                    let paid = settling::own_payout(winner, #[trigger] tokens[i])@;
                    &&& paid == 0 || paid == decimal::one_unit()
                    &&& paid > 0 ==> 2 * worth(tokens, mids, positions, i) > decimal::one_unit() && forall|j: int|
                        0 <= j < tokens.len() ==> #[trigger] worth(tokens, mids, positions, j) <= worth(tokens, mids, positions, i)
                    &&& paid > 0 ==> winner == Some(tokens[i])
                }
            &&& (exists|j: int| 0 <= j < tokens.len() && 2 * #[trigger] worth(tokens, mids, positions, j)
                > decimal::one_unit()) ==> exists|i: int|
                0 <= i < tokens.len() && settling::own_payout(winner, #[trigger] tokens[i])@
                    == decimal::one_unit() && forall|j: int|
                    0 <= j < tokens.len() ==> #[trigger] worth(tokens, mids, positions, j) <= worth(tokens, mids, positions, i)
        }),
{
    lemma_half_of_one();
    let prices = settling::own_prices(tokens, mids, positions);
    let winner = settling::own_winner(tokens, prices);
    lemma_favourite_is_worth_most(prices);
    assert forall|j: int| 0 <= j < tokens.len() implies #[trigger] worth(tokens, mids, positions, j) == prices[j]@ by {}
    match settling::favourite(prices) {
        Some(k) => {
            assert(worth(tokens, mids, positions, k) == prices[k]@);
            if winner is Some {
                assert(settling::own_payout(winner, tokens[k])@ == decimal::one_unit());
                assert forall|j: int| 0 <= j < tokens.len() implies #[trigger] worth(tokens, mids, positions, j) <= worth(tokens, mids, positions, k) by {}
            }
        },
        None => {},
    }
}

/// Of tokens that are worth the same, the first one wins, and the same token listed twice is paid the
/// same.
pub proof fn law_the_first_of_the_best_tokens_wins(
    tokens: Seq<Seq<char>>,
    prices: Seq<Decimal>,
    i: int,
)
    requires
        prices.len() == tokens.len(),
        0 <= i < tokens.len(),
        2 * prices[i]@ > decimal::one_unit(),
        forall|j: int| 0 <= j < i ==> (#[trigger] prices[j])@ < prices[i]@,
        forall|j: int| i < j < prices.len() ==> (#[trigger] prices[j])@ <= prices[i]@,
    ensures
        settling::own_winner(tokens, prices) == Some(tokens[i]),
{
    lemma_half_of_one();
    lemma_favourite_is_worth_most(prices);
}

// ---------------------------------------------------------------------------------------------
// Redeeming

/// A request asks for what the claim owes: its payout, the shares of each outcome, and the claim's
/// own market.
pub open spec fn asks_for(q: model::RequestModel, c: ClaimModel) -> bool {
    &&& q.id == c.id
    &&& q.condition_id == c.condition_id
    &&& q.expected_payout_usd == c.payout_usd
    &&& q.outcome_shares == c.outcome_shares
    &&& q.neg_risk == c.neg_risk
    &&& q.winning_token_id == c.winning_token_id
}

/// Some claim of a list is due, and a request asks for it.
pub open spec fn asked_by_some(
    q: model::RequestModel,
    s: Seq<(Seq<char>, ClaimModel)>,
    now_ms: i64,
) -> bool {
    exists|j: int|
        0 <= j < s.len() && asks_for(q, (#[trigger] s[j]).1) && !s[j].1.manual
            && s[j].1.next_attempt_ms <= now_ms
}

proof fn lemma_requests(s: Seq<(Seq<char>, ClaimModel)>, now_ms: i64)
    ensures
        forall|i: int|
            0 <= i < settlement::requests_due(s, now_ms).len() ==> asked_by_some(
                #[trigger] settlement::requests_due(s, now_ms)[i],
                s,
                now_ms,
            ),
        forall|j: int|
            0 <= j < s.len() && !(#[trigger] s[j]).1.manual && s[j].1.next_attempt_ms <= now_ms
                ==> exists|i: int|
                0 <= i < settlement::requests_due(s, now_ms).len() && asks_for(
                    #[trigger] settlement::requests_due(s, now_ms)[i],
                    s[j].1,
                ),
    decreases s.len(),
{
    if s.len() > 0 {
        let front = s.drop_last();
        lemma_requests(front, now_ms);
        let rest = settlement::requests_due(front, now_ms);
        let all = settlement::requests_due(s, now_ms);
        assert forall|i: int| 0 <= i < all.len() implies asked_by_some(
            #[trigger] all[i],
            s,
            now_ms,
        ) by {
            if i < rest.len() {
                assert(all[i] == rest[i]);
                assert(asked_by_some(rest[i], front, now_ms));
                let j = choose|j: int|
                    0 <= j < front.len() && asks_for(rest[i], (#[trigger] front[j]).1)
                        && !front[j].1.manual && front[j].1.next_attempt_ms <= now_ms;
                assert(s[j] == front[j]);
            } else {
                assert(s[s.len() - 1] == s.last());
            }
        }
        assert forall|j: int|
            0 <= j < s.len() && !(#[trigger] s[j]).1.manual && s[j].1.next_attempt_ms
                <= now_ms implies exists|i: int|
            0 <= i < all.len() && asks_for(#[trigger] all[i], s[j].1) by {
            if j < front.len() {
                assert(front[j] == s[j]);
                let i = choose|i: int|
                    0 <= i < rest.len() && asks_for(#[trigger] rest[i], front[j].1);
                assert(all[i] == rest[i]);
            } else {
                assert(asks_for(all[all.len() - 1], s[j].1));
            }
        }
    }
}

/// Every claim that is not left to the operator and whose time has come is handed out, and nothing
/// else is; each request asks for what its claim owes.
pub proof fn law_what_is_due_is_asked_for(m: BookModel, now_ms: i64)
    requires
        settlement_laws::claims_keyed(m),
    ensures
        ({
            let requests = settlement::requests_due(str_map::ordered(m.claims), now_ms);
            &&& forall|i: int|
                0 <= i < requests.len() ==> {
                    let q = #[trigger] requests[i];
                    &&& m.claims.dom().contains(q.id)
                    &&& asks_for(q, m.claims[q.id])
                    &&& !m.claims[q.id].manual
                    &&& m.claims[q.id].next_attempt_ms <= now_ms
                }
            &&& forall|k: Seq<char>| #[trigger]
                m.claims.dom().contains(k) && !m.claims[k].manual && m.claims[k].next_attempt_ms
                    <= now_ms ==> exists|i: int|
                    0 <= i < requests.len() && asks_for(#[trigger] requests[i], m.claims[k])
        }),
{
    let s = str_map::ordered(m.claims);
    str_map::lemma_has_order(m.claims);
    str_map::lemma_entries_map(s);
    lemma_requests(s, now_ms);
    let requests = settlement::requests_due(s, now_ms);
    assert forall|i: int| 0 <= i < requests.len() implies {
        let q = #[trigger] requests[i];
        &&& m.claims.dom().contains(q.id)
        &&& asks_for(q, m.claims[q.id])
        &&& !m.claims[q.id].manual
        &&& m.claims[q.id].next_attempt_ms <= now_ms
    } by {
        assert(asked_by_some(requests[i], s, now_ms));
        let j = choose|j: int|
            0 <= j < s.len() && asks_for(requests[i], (#[trigger] s[j]).1) && !s[j].1.manual
                && s[j].1.next_attempt_ms <= now_ms;
        assert(m.claims.dom().contains(s[j].0));
    }
    assert forall|k: Seq<char>| #[trigger]
        m.claims.dom().contains(k) && !m.claims[k].manual && m.claims[k].next_attempt_ms
            <= now_ms implies exists|i: int|
        0 <= i < requests.len() && asks_for(#[trigger] requests[i], m.claims[k]) by {
        let j = choose|j: int| 0 <= j < s.len() && #[trigger] s[j].0 == k;
        assert(!s[j].1.manual);
    }
}

/// The delay before a claim is tried again starts at the base and doubles with every attempt, up to
/// the ceiling.
pub proof fn law_the_backoff_doubles(attempts: u32)
    requires
        attempts < u32::MAX,
    ensures
        attempts <= 1 ==> settlement::backoff(attempts) == settlement::RETRY_BASE_MS,
        attempts >= 1 ==> settlement::backoff((attempts + 1) as u32) == if 2 * settlement::backoff(
            attempts,
        ) < settlement::RETRY_MAX_MS {
            2 * settlement::backoff(attempts)
        } else {
            settlement::RETRY_MAX_MS as int
        },
{
}

/// A failed attempt puts its own claim off by the delay of its attempts, keeps what it owes, and
/// leaves every other claim alone; where the operator has to step in, it is put off for good.
pub proof fn law_a_failed_attempt_waits(
    m: BookModel,
    id: Seq<char>,
    message: Seq<char>,
    manual: bool,
    now_ms: i64,
)
    requires
        m.claims.dom().contains(id),
        !m.claims[id].manual && !manual ==> now_ms + settlement::backoff(m.claims[id].attempts)
            <= i64::MAX,
        now_ms >= 0,
    ensures
        ({
            let after = settlement::failure_step(m, id, message, manual, now_ms);
            let c = after.claims[id];
            &&& after.claims.dom() == m.claims.dom()
            &&& forall|k: Seq<char>| #[trigger]
                m.claims.dom().contains(k) && k != id ==> after.claims[k] == m.claims[k]
            &&& c.payout_usd == m.claims[id].payout_usd
            &&& c.outcome_shares == m.claims[id].outcome_shares
            &&& c.attempts == m.claims[id].attempts
            &&& c.last_error == Some(message)
            &&& c.manual == (m.claims[id].manual || manual)
            &&& c.next_attempt_ms == if m.claims[id].manual || manual {
                i64::MAX as int
            } else {
                now_ms + settlement::backoff(m.claims[id].attempts)
            }
        }),
{
    let after = settlement::failure_step(m, id, message, manual, now_ms);
    assert(after.claims.dom() =~= m.claims.dom());
}

proof fn lemma_manual_counts(s: Seq<(Seq<char>, ClaimModel)>)
    ensures
        settlement::count_manual(s, true) + settlement::count_manual(s, false) == s.len(),
        settlement::count_manual(s, true) > 0 <==> exists|i: int|
            0 <= i < s.len() && (#[trigger] s[i]).1.manual,
    decreases s.len(),
{
    if s.len() > 0 {
        let front = s.drop_last();
        lemma_manual_counts(front);
        assert(s[s.len() - 1] == s.last());
        if settlement::count_manual(front, true) > 0 {
            let i = choose|i: int| 0 <= i < front.len() && (#[trigger] front[i]).1.manual;
            assert(s[i] == front[i]);
        }
        if exists|i: int| 0 <= i < s.len() && (#[trigger] s[i]).1.manual {
            let i = choose|i: int| 0 <= i < s.len() && (#[trigger] s[i]).1.manual;
            if i < front.len() {
                assert(front[i] == s[i]);
            }
        }
    }
}

/// Every claim is either retried or left to the operator, and the operator's count is above zero just
/// where there is one.
pub proof fn law_a_claim_is_retried_or_left_to_the_operator(m: BookModel)
    requires
        m.claims.dom().finite(),
    ensures
        ({
            let s = str_map::ordered(m.claims);
            &&& settlement::count_manual(s, true) + settlement::count_manual(s, false)
                == m.claims.len()
            &&& settlement::count_manual(s, true) > 0 <==> exists|k: Seq<char>| #[trigger]
                m.claims.dom().contains(k) && m.claims[k].manual
        }),
{
    let s = str_map::ordered(m.claims);
    str_map::lemma_has_order(m.claims);
    str_map::lemma_entries_map(s);
    lemma_manual_counts(s);
    if exists|k: Seq<char>| #[trigger] m.claims.dom().contains(k) && m.claims[k].manual {
        let k = choose|k: Seq<char>| #[trigger] m.claims.dom().contains(k) && m.claims[k].manual;
        let i = choose|i: int| 0 <= i < s.len() && #[trigger] s[i].0 == k;
        assert(s[i].1.manual);
    }
    if exists|i: int| 0 <= i < s.len() && (#[trigger] s[i]).1.manual {
        let i = choose|i: int| 0 <= i < s.len() && (#[trigger] s[i]).1.manual;
        assert(m.claims.dom().contains(s[i].0) && m.claims[s[i].0].manual);
    }
}

// ---------------------------------------------------------------------------------------------
// Silence

/// Whether the venue has said nothing on a market for too long: it was asked, and both the first
/// question and the last answer lie too far back.
pub open spec fn unheard(q: QueryModel, now_ms: i64) -> bool {
    &&& q.first_sent_ms > 0
    &&& now_ms - q.first_sent_ms > settlement::BLIND_AFTER_MS
    &&& now_ms - (q.next_query_ms - settlement::REQUERY_MS) > settlement::BLIND_AFTER_MS
}

proof fn lemma_oldest_sign(s: Seq<(Seq<char>, QueryModel)>, now_ms: i64)
    ensures
        (exists|i: int| 0 <= i < s.len() && unheard((#[trigger] s[i]).1, now_ms)) <==> (
        settlement::oldest_sign(s) is Some && now_ms - settlement::oldest_sign(s)->0
            > settlement::BLIND_AFTER_MS),
    decreases s.len(),
{
    if s.len() > 0 {
        let front = s.drop_last();
        lemma_oldest_sign(front, now_ms);
        assert(s[s.len() - 1] == s.last());
        if exists|i: int| 0 <= i < front.len() && unheard((#[trigger] front[i]).1, now_ms) {
            let i = choose|i: int| 0 <= i < front.len() && unheard((#[trigger] front[i]).1, now_ms);
            assert(s[i] == front[i]);
        }
        if exists|i: int| 0 <= i < s.len() && unheard((#[trigger] s[i]).1, now_ms) {
            let i = choose|i: int| 0 <= i < s.len() && unheard((#[trigger] s[i]).1, now_ms);
            if i < front.len() {
                assert(front[i] == s[i]);
            }
        }
    }
}

/// The venue counts as silent just where there is a watched market that it was asked about and has
/// said nothing on for too long.
pub proof fn law_silence_is_a_market_without_an_answer(m: BookModel, now_ms: i64)
    requires
        m.queries.dom().finite(),
    ensures
        settling::silent_since(m, now_ms) is Some <==> exists|k: Seq<char>| #[trigger]
            m.queries.dom().contains(k) && unheard(m.queries[k], now_ms),
{
    let s = str_map::ordered(m.queries);
    str_map::lemma_has_order(m.queries);
    str_map::lemma_entries_map(s);
    lemma_oldest_sign(s, now_ms);
    if exists|k: Seq<char>| #[trigger] m.queries.dom().contains(k) && unheard(m.queries[k], now_ms) {
        let k = choose|k: Seq<char>| #[trigger]
            m.queries.dom().contains(k) && unheard(m.queries[k], now_ms);
        let i = choose|i: int| 0 <= i < s.len() && #[trigger] s[i].0 == k;
        assert(unheard(s[i].1, now_ms));
    }
    if exists|i: int| 0 <= i < s.len() && unheard((#[trigger] s[i]).1, now_ms) {
        let i = choose|i: int| 0 <= i < s.len() && unheard((#[trigger] s[i]).1, now_ms);
        assert(m.queries.dom().contains(s[i].0));
    }
}

} // verus!
