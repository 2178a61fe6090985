//! What holds of the settlement book over several calls.
use vstd::prelude::*;

use crate::decimal;
use crate::model::{MarketResolution, OpenPosition};
use crate::settlement;
use crate::settlement::{BookModel, BookingModel, ClaimModel, LineModel, QueryModel};
use crate::str_map;
use crate::text;

verus! {

/// One call on a book.
pub enum BookCall {
    Book { booking: BookingModel, resolution: MarketResolution, now_ms: i64 },
    NoteClosed { key: Seq<char>, now_ms: i64 },
    TakeRedemptions { now_ms: i64 },
    NoteFailure { id: Seq<char>, message: Seq<char>, manual: bool, now_ms: i64 },
    NoteConfirmed {
        id: Seq<char>,
        tx_hash: Option<Seq<char>>,
        block_number: Option<u64>,
        now_ms: i64,
    },
    TrackMarkets { positions: Seq<OpenPosition>, now_ms: i64 },
    TakeQueries { now_ms: i64 },
    NoteAnswer { condition_id: Seq<char>, now_ms: i64 },
    ForgetMarket { condition_id: Seq<char> },
    NoteBlindState { blind: bool },
}

/// What a book knows after a call.
pub open spec fn called(m: BookModel, call: BookCall) -> BookModel {
    match call {
        BookCall::Book { booking, resolution, now_ms } => settlement::book_step(
            m,
            booking,
            resolution,
            now_ms,
        ),
        BookCall::NoteClosed { key, now_ms } => settlement::close_step(m, key, now_ms),
        BookCall::TakeRedemptions { now_ms } => settlement::redemptions_step(m, now_ms),
        BookCall::NoteFailure { id, message, manual, now_ms } => settlement::failure_step(
            m,
            id,
            message,
            manual,
            now_ms,
        ),
        BookCall::NoteConfirmed { id, tx_hash, block_number, now_ms } => settlement::confirm_step(
            m,
            id,
            tx_hash,
            block_number,
            now_ms,
        ),
        BookCall::TrackMarkets { positions, now_ms } => settlement::track_step(
            m,
            positions,
            now_ms,
        ),
        BookCall::TakeQueries { now_ms } => settlement::queries_step(m, now_ms),
        BookCall::NoteAnswer { condition_id, now_ms } => settlement::answer_step(
            m,
            condition_id,
            now_ms,
        ),
        BookCall::ForgetMarket { condition_id } => settlement::forget_step(m, condition_id),
        BookCall::NoteBlindState { blind } => settlement::blind_step(m, blind),
    }
}

/// What a book knows after a list of calls.
pub open spec fn called_all(m: BookModel, calls: Seq<BookCall>) -> BookModel
    decreases calls.len(),
{
    if calls.len() == 0 {
        m
    } else {
        called(called_all(m, calls.drop_last()), calls.last())
    }
}

/// What is committed stays committed: no call takes a settlement back or changes its record, so a
/// key that is booked once is refused ever after.
pub proof fn law_a_settlement_is_never_taken_back(m: BookModel, call: BookCall, key: Seq<char>)
    requires
        m.applied.dom().contains(key),
    ensures
        called(m, call).applied.dom().contains(key),
        called(m, call).applied[key] == m.applied[key],
{
}

/// Booking twice books once: after a booking, the same key books nothing and changes nothing.
pub proof fn law_booking_twice_books_once(
    m: BookModel,
    b: BookingModel,
    r: MarketResolution,
    now_ms: i64,
    again: BookingModel,
    r2: MarketResolution,
    later_ms: i64,
)
    requires
        again.key == b.key,
    ensures
        settlement::book_step(
            settlement::book_step(m, b, r, now_ms),
            again,
            r2,
            later_ms,
        ) == settlement::book_step(m, b, r, now_ms),
{
}

/// A booking commits one record, once. A key that is committed already changes nothing at all. A
/// new key adds one record that says what the booking and the verdict say, counts one booking more,
/// adds one line to the journal, and leaves every other record alone.
pub proof fn law_a_booking_commits_one_record(
    m: BookModel,
    b: BookingModel,
    r: MarketResolution,
    now_ms: i64,
)
    requires
        m.applied.dom().finite(),
        m.booked < u64::MAX,
    ensures
        ({
            let after = settlement::book_step(m, b, r, now_ms);
            let record = after.applied[b.key];
            let line = LineModel::Settlement { at_ms: now_ms, record };
            if m.applied.dom().contains(b.key) {
                after == m
            } else {
                &&& after.applied.dom() == m.applied.dom().insert(b.key)
                &&& after.applied.len() == m.applied.len() + 1
                &&& forall|k: Seq<char>| #[trigger]
                    m.applied.dom().contains(k) ==> after.applied[k] == m.applied[k]
                &&& after.booked == m.booked + 1
                &&& after.journal == match m.journal {
                    Some(lines) => Some(lines.push(line)),
                    None => None,
                }
                &&& record.key == b.key
                &&& record.position_id == b.position_id
                &&& record.condition_id == b.condition_id
                &&& record.token_id == b.token_id
                &&& record.strategy == b.strategy
                &&& record.asset == b.asset
                &&& record.shares == b.shares
                &&& record.payout_per_share == b.payout_per_share
                &&& record.payout_usd == b.payout_usd
                &&& record.winning == b.winning
                &&& record.outcome_index == b.outcome_index
                &&& record.claim_id == settlement::booked_record(m, b, r, now_ms).claim_id
                &&& record.neg_risk == r.neg_risk
                &&& record.source == r.source@
                &&& record.applied_at_ms == now_ms
            }
        }),
{
    let after = settlement::book_step(m, b, r, now_ms);
    if !m.applied.dom().contains(b.key) {
        assert(after.applied.dom() =~= m.applied.dom().insert(b.key));
    }
}

/// A claim without what a restart forgets: the attempts and what came of them.
pub open spec fn durable_claim(c: ClaimModel) -> ClaimModel {
    ClaimModel {
        attempts: 0,
        next_attempt_ms: 0,
        manual: false,
        last_error: None,
        failed_no: 0,
        tx_hash: None,
        block_number: None,
        ..c
    }
}

/// What of a book a restart keeps: the settlements, the closes, the claims and the redemptions.
pub open spec fn durable(m: BookModel) -> BookModel {
    BookModel {
        claims: m.claims.map_values(|c: ClaimModel| durable_claim(c)),
        queries: Map::empty(),
        booked: 0,
        failures: 0,
        blind_alerted: false,
        journal: None,
        ..m
    }
}

/// Every claim has a name.
pub open spec fn claims_named(m: BookModel) -> bool {
    forall|k: Seq<char>| #[trigger] m.claims.dom().contains(k) ==> k.len() > 0
}

/// The call, if it books, books on a market that has a name.
pub open spec fn books_named(call: BookCall) -> bool {
    call matches BookCall::Book { booking, .. } ==> booking.condition_id.len() > 0
}

proof fn lemma_first_claim(s: Seq<(Seq<char>, ClaimModel)>, condition_id: Seq<char>)
    ensures
        settlement::first_claim(s, condition_id) matches Some(id) ==> exists|i: int|
            0 <= i < s.len() && (#[trigger] s[i]).1.id == id && s[i].1.condition_id
                == condition_id,
        settlement::first_claim(s, condition_id) is None ==> forall|i: int|
            0 <= i < s.len() ==> (#[trigger] s[i]).1.condition_id != condition_id,
    decreases s.len(),
{
    if s.len() > 0 {
        let rest = s.drop_first();
        lemma_first_claim(rest, condition_id);
        if s[0].1.condition_id == condition_id {
        } else {
            match settlement::first_claim(rest, condition_id) {
                Some(id) => {
                    let i = choose|i: int|
                        0 <= i < rest.len() && (#[trigger] rest[i]).1.id == id
                            && rest[i].1.condition_id == condition_id;
                    assert(s[i + 1] == rest[i]);
                },
                None => {
                    assert forall|i: int| 0 <= i < s.len() implies (
                    #[trigger] s[i]).1.condition_id != condition_id by {
                        if i > 0 {
                            assert(rest[i - 1] == s[i]);
                        }
                    }
                },
            }
        }
    }
}

/// Claims stand under their own ids.
pub open spec fn claims_keyed(m: BookModel) -> bool {
    &&& m.claims.dom().finite()
    &&& forall|k: Seq<char>| #[trigger] m.claims.dom().contains(k) ==> m.claims[k].id == k
}

/// The open claim of a market is a claim of that market; where there is none, no claim is the
/// market's.
pub proof fn lemma_open_claim(m: BookModel, condition_id: Seq<char>)
    requires
        claims_keyed(m),
    ensures
        settlement::open_claim(m, condition_id) matches Some(id) ==> m.claims.dom().contains(id)
            && m.claims[id].condition_id == condition_id,
        settlement::open_claim(m, condition_id) is None ==> forall|k: Seq<char>| #[trigger]
            m.claims.dom().contains(k) ==> m.claims[k].condition_id != condition_id,
{
    let s = str_map::ordered(m.claims);
    str_map::lemma_has_order(m.claims);
    str_map::lemma_entries_map(s);
    lemma_first_claim(s, condition_id);
    match settlement::open_claim(m, condition_id) {
        Some(id) => {
            let i = choose|i: int|
                0 <= i < s.len() && (#[trigger] s[i]).1.id == id && s[i].1.condition_id
                    == condition_id;
            assert(m.claims.dom().contains(s[i].0));
        },
        None => {
            assert forall|k: Seq<char>| #[trigger]
                m.claims.dom().contains(k) implies m.claims[k].condition_id != condition_id by {
                let i = choose|i: int| 0 <= i < s.len() && #[trigger] s[i].0 == k;
            }
        },
    }
}

/// The counters, sums and clocks that a call asks for stay in range.
pub open spec fn call_ok(m: BookModel, call: BookCall) -> bool {
    match call {
        BookCall::Book { booking, resolution, now_ms } => settlement::book_ok(
            m,
            booking,
            resolution,
            now_ms,
        ),
        BookCall::NoteAnswer { condition_id, now_ms } => m.queries.dom().contains(condition_id)
            ==> m.queries[condition_id].answers < u32::MAX && now_ms + settlement::REQUERY_MS
            <= i64::MAX,
        BookCall::TakeRedemptions { now_ms } => forall|k: Seq<char>| #[trigger]
            m.claims.dom().contains(k) ==> settlement::claim_sent_ok(m.claims[k], now_ms),
        BookCall::NoteFailure { id, message, manual, now_ms } => m.claims.dom().contains(id)
            && !m.claims[id].manual && !manual ==> now_ms + settlement::backoff(m.claims[id].attempts) <= i64::MAX,
        BookCall::NoteConfirmed { id, tx_hash, block_number, now_ms } => m.claims.dom().contains(
            id,
        ) ==> settlement::redeemed_of(m, m.claims[id].condition_id) < u32::MAX,
        _ => true,
    }
}

proof fn lemma_watched_all_inv(
    queries: Map<Seq<char>, QueryModel>,
    positions: Seq<OpenPosition>,
    now_ms: i64,
)
    requires
        queries.dom().finite(),
        forall|k: Seq<char>| #[trigger]
            queries.dom().contains(k) ==> queries[k].condition_id == k && queries[k].next_query_ms
                >= i64::MIN + settlement::REQUERY_MS,
    ensures
        settlement::watched_all(queries, positions, now_ms).dom().finite(),
        forall|k: Seq<char>| #[trigger]
            settlement::watched_all(queries, positions, now_ms).dom().contains(k)
                ==> settlement::watched_all(queries, positions, now_ms)[k].condition_id == k
                && settlement::watched_all(queries, positions, now_ms)[k].next_query_ms >= i64::MIN
                + settlement::REQUERY_MS,
    decreases positions.len(),
{
    if positions.len() > 0 {
        lemma_watched_all_inv(queries, positions.drop_last(), now_ms);
    }
}

/// Every call keeps what holds of every book.
pub proof fn law_calls_keep_the_invariant(m: BookModel, call: BookCall)
    requires
        settlement::book_inv(m),
        call_ok(m, call),
    ensures
        settlement::book_inv(called(m, call)),
{
    match call {
        BookCall::TakeRedemptions { now_ms } => {
            assert(called(m, call).claims.dom() =~= m.claims.dom());
        },
        BookCall::TakeQueries { now_ms } => {
            assert(called(m, call).queries.dom() =~= m.queries.dom());
        },
        BookCall::TrackMarkets { positions, now_ms } => {
            lemma_watched_all_inv(m.queries, positions, now_ms);
        },
        _ => {},
    }
}

/// Books that agree on what a restart keeps still agree after the same journal line.
proof fn lemma_replay_respects_durable(x: BookModel, y: BookModel, line: LineModel)
    requires
        durable(x) == durable(y),
    ensures
        durable(settlement::replayed(x, line)) == durable(settlement::replayed(y, line)),
{
    let dx = durable(x).claims;
    let dy = durable(y).claims;
    assert(x.claims.dom() =~= dx.dom());
    assert(y.claims.dom() =~= dy.dom());
    assert forall|k: Seq<char>| x.claims.dom().contains(k) implies durable_claim(
        #[trigger] x.claims[k],
    ) == durable_claim(y.claims[k]) by {
        assert(dx[k] == dy[k]);
    }
    let a = settlement::replayed(x, line);
    let b = settlement::replayed(y, line);
    assert(durable(x).applied == durable(y).applied);
    assert(durable(x).closed == durable(y).closed);
    assert(durable(x).redeemed == durable(y).redeemed);
    assert(durable(x).redeemed_per_condition == durable(y).redeemed_per_condition);
    match line {
        LineModel::Redeemed { at_ms, claim_id, tx_hash, block_number } => {
            if x.claims.dom().contains(claim_id) {
                assert(durable_claim(x.claims[claim_id]) == durable_claim(y.claims[claim_id]));
            }
        },
        _ => {},
    }
    assert(durable(a).claims =~= durable(b).claims);
    assert(durable(a) =~= durable(b));
}

/// A call writes at most one journal line, and replaying that line on the book before the call
/// gives what a restart keeps of the book after it.
pub proof fn law_the_journal_tells_what_a_call_committed(m: BookModel, call: BookCall)
    requires
        claims_keyed(m),
        claims_named(m),
        books_named(call),
        m.journal is Some,
    ensures
        claims_keyed(called(m, call)),
        claims_named(called(m, call)),
        called(m, call).journal is Some,
        ({
            let before = m.journal->0;
            let after = called(m, call).journal->0;
            ||| after == before && durable(called(m, call)) == durable(m)
            ||| after.len() == before.len() + 1 && after.drop_last() == before && durable(
                called(m, call),
            ) == durable(settlement::replayed(m, after.last()))
        }),
{
    let n = called(m, call);
    let before = m.journal->0;
    let after = n.journal->0;
    match call {
        BookCall::Book { booking, resolution, now_ms } => {
            lemma_open_claim(m, booking.condition_id);
            if !m.applied.dom().contains(booking.key) {
                assert(after.drop_last() =~= before);
                assert(durable(n) =~= durable(settlement::replayed(m, after.last())));
            }
        },
        BookCall::NoteClosed { key, now_ms } => {
            if !m.closed.contains(key) {
                assert(after.drop_last() =~= before);
                assert(durable(n) =~= durable(settlement::replayed(m, after.last())));
            }
        },
        BookCall::NoteConfirmed { id, tx_hash, block_number, now_ms } => {
            if m.claims.dom().contains(id) {
                assert(after.drop_last() =~= before);
                assert(durable(n) =~= durable(settlement::replayed(m, after.last())));
            }
        },
        BookCall::TakeRedemptions { now_ms } => {
            assert(n.claims.dom() =~= m.claims.dom());
            assert(durable(n).claims =~= durable(m).claims);
            assert(durable(n) =~= durable(m));
        },
        BookCall::NoteFailure { id, message, manual, now_ms } => {
            assert(durable(n).claims =~= durable(m).claims);
            assert(durable(n) =~= durable(m));
        },
        _ => {
            assert(durable(n) =~= durable(m));
        },
    }
}

proof fn lemma_journal_of_calls(m: BookModel, calls: Seq<BookCall>)
    requires
        claims_keyed(m),
        claims_named(m),
        m.journal == Some(Seq::<LineModel>::empty()),
        forall|i: int| 0 <= i < calls.len() ==> books_named(#[trigger] calls[i]),
    ensures
        claims_keyed(called_all(m, calls)),
        claims_named(called_all(m, calls)),
        called_all(m, calls).journal is Some,
        durable(settlement::replayed_all(m, called_all(m, calls).journal->0)) == durable(
            called_all(m, calls),
        ),
    decreases calls.len(),
{
    if calls.len() > 0 {
        let front = calls.drop_last();
        lemma_journal_of_calls(m, front);
        let x = called_all(m, front);
        let y = called_all(m, calls);
        law_the_journal_tells_what_a_call_committed(x, calls.last());
        if y.journal->0 != x.journal->0 {
            lemma_replay_respects_durable(
                settlement::replayed_all(m, x.journal->0),
                x,
                (y.journal->0).last(),
            );
        }
    }
}

proof fn lemma_replayed_book(lines: Seq<LineModel>)
    ensures
        claims_keyed(settlement::replayed_all(settlement::empty_book(true), lines)),
        claims_named(settlement::replayed_all(settlement::empty_book(true), lines)),
        settlement::replayed_all(settlement::empty_book(true), lines).journal == Some(
            Seq::<LineModel>::empty(),
        ),
    decreases lines.len(),
{
    if lines.len() > 0 {
        lemma_replayed_book(lines.drop_last());
    }
}

proof fn lemma_replay_in_two_parts(m: BookModel, a: Seq<LineModel>, b: Seq<LineModel>)
    ensures
        settlement::replayed_all(m, a + b) == settlement::replayed_all(
            settlement::replayed_all(m, a),
            b,
        ),
    decreases b.len(),
{
    if b.len() == 0 {
        assert(a + b =~= a);
    } else {
        assert((a + b).drop_last() =~= a + b.drop_last());
        assert((a + b).last() == b.last());
        lemma_replay_in_two_parts(m, a, b.drop_last());
    }
}

/// A restart loses nothing that was committed. Whatever calls were made on a book, a book opened
/// on its whole journal, the lines that it was opened on and the lines that it wrote since, knows
/// the same settlements, closes, claims and redemptions.
///
/// The markets booked on have names: a claim without a name reads as no claim in the journal.
pub proof fn law_a_restart_keeps_what_was_committed(before: Seq<LineModel>, calls: Seq<BookCall>)
    requires
        forall|i: int| 0 <= i < calls.len() ==> books_named(#[trigger] calls[i]),
    ensures
        ({
            let opened = settlement::replayed_all(settlement::empty_book(true), before);
            let used = called_all(opened, calls);
            &&& used.journal is Some
            &&& durable(
                settlement::replayed_all(settlement::empty_book(true), before + used.journal->0),
            ) == durable(used)
        }),
{
    let opened = settlement::replayed_all(settlement::empty_book(true), before);
    lemma_replayed_book(before);
    lemma_journal_of_calls(opened, calls);
    lemma_replay_in_two_parts(
        settlement::empty_book(true),
        before,
        called_all(opened, calls).journal->0,
    );
}

/// What a restart keeps includes what is owed: books that agree on it are owed the same.
pub proof fn law_what_is_owed_survives_a_restart(x: BookModel, y: BookModel)
    requires
        x.claims.dom().finite(),
        durable(x) == durable(y),
    ensures
        settlement::owed(x) == settlement::owed(y),
{
    let f = |c: ClaimModel| durable_claim(c);
    assert(x.claims.dom() =~= durable(x).claims.dom());
    assert(y.claims.dom() =~= durable(y).claims.dom());
    lemma_worth_of_mapped(x.claims, f);
    lemma_worth_of_mapped(y.claims, f);
}

/// Changing claims in a way that leaves their payouts alone leaves what they are worth alone.
proof fn lemma_worth_of_mapped(
    claims: Map<Seq<char>, ClaimModel>,
    f: spec_fn(ClaimModel) -> ClaimModel,
)
    requires
        claims.dom().finite(),
        forall|c: ClaimModel| (#[trigger] f(c)).payout_usd == c.payout_usd,
    ensures
        settlement::claims_worth(str_map::ordered(claims.map_values(f)))
            == settlement::claims_worth(str_map::ordered(claims)),
        settlement::payouts_sum(str_map::ordered(claims.map_values(f))) == settlement::payouts_sum(
            str_map::ordered(claims),
        ),
{
    let s = str_map::ordered(claims);
    let g = |e: (Seq<char>, ClaimModel)| (e.0, f(e.1));
    let t = s.map_values(g);
    str_map::lemma_has_order(claims);
    str_map::lemma_entries_map_values(s, f);
    assert forall|i: int, j: int| 0 <= i < j < t.len() implies text::text_before(
        #[trigger] t[i].0,
        #[trigger] t[j].0,
    ) by {
        assert(text::text_before(s[i].0, s[j].0));
    }
    str_map::lemma_is_ordered(t);
    lemma_worth_by_payouts(s, t);
}

proof fn lemma_worth_by_payouts(
    s: Seq<(Seq<char>, ClaimModel)>,
    t: Seq<(Seq<char>, ClaimModel)>,
)
    requires
        s.len() == t.len(),
        forall|i: int| 0 <= i < s.len() ==> (#[trigger] s[i]).1.payout_usd == t[i].1.payout_usd,
    ensures
        settlement::claims_worth(s) == settlement::claims_worth(t),
        settlement::payouts_sum(s) == settlement::payouts_sum(t),
    decreases s.len(),
{
    if s.len() > 0 {
        assert forall|i: int| 0 <= i < s.drop_last().len() implies (
        #[trigger] s.drop_last()[i]).1.payout_usd == t.drop_last()[i].1.payout_usd by {
            assert(s[i].1.payout_usd == t[i].1.payout_usd);
        }
        lemma_worth_by_payouts(s.drop_last(), t.drop_last());
    }
}

/// A redemption that confirms takes exactly its payout out of what is owed, and pays once: a
/// second confirmation of the same claim pays nothing and changes nothing.
pub proof fn law_a_redemption_pays_once(
    m: BookModel,
    id: Seq<char>,
    tx_hash: Option<Seq<char>>,
    block_number: Option<u64>,
    now_ms: i64,
    tx_hash2: Option<Seq<char>>,
    block_number2: Option<u64>,
    later_ms: i64,
)
    requires
        m.claims.dom().finite(),
    ensures
        ({
            let after = settlement::confirm_step(m, id, tx_hash, block_number, now_ms);
            &&& settlement::owed(m) == settlement::owed(after) + match settlement::confirmed_payout(
                m,
                id,
            ) {
                Some(payout) => payout@,
                None => 0,
            }
            &&& settlement::confirmed_payout(after, id) is None
            &&& settlement::confirm_step(after, id, tx_hash2, block_number2, later_ms) == after
        }),
{
    if m.claims.dom().contains(id) {
        let i = str_map::lemma_ordered_insert_known(m.claims, id, m.claims[id]);
        settlement::lemma_worth_remove(str_map::ordered(m.claims), i);
    }
}

/// Only a booking and a confirmed redemption change what is owed: handing claims out, failures,
/// queries, closes and the silence alarm do not.
pub proof fn law_only_bookings_and_redemptions_move_the_receivable(m: BookModel, call: BookCall)
    requires
        m.claims.dom().finite(),
        !(call is Book),
        !(call is NoteConfirmed),
    ensures
        settlement::owed(called(m, call)) == settlement::owed(m),
        settlement::payouts_sum(str_map::ordered(called(m, call).claims))
            == settlement::payouts_sum(str_map::ordered(m.claims)),
{
    match call {
        BookCall::TakeRedemptions { now_ms } => {
            lemma_worth_of_mapped(m.claims, |c: ClaimModel| settlement::claim_step(c, now_ms));
        },
        BookCall::NoteFailure { id, message, manual, now_ms } => {
            if m.claims.dom().contains(id) {
                let c = called(m, call).claims[id];
                let s = str_map::ordered(m.claims);
                let i = str_map::lemma_ordered_insert_known(m.claims, id, c);
                lemma_worth_by_payouts(s, s.update(i, (id, c)));
            }
        },
        _ => {},
    }
}

/// No two claims are on one market.
pub open spec fn one_claim_per_market(m: BookModel) -> bool {
    forall|a: Seq<char>, b: Seq<char>|
        #![trigger m.claims.dom().contains(a), m.claims.dom().contains(b)]
        m.claims.dom().contains(a) && m.claims.dom().contains(b) && m.claims[a].condition_id
            == m.claims[b].condition_id ==> a == b
}

/// A market redeems once for all its positions: no call opens a second claim on a market that has
/// one. The claim a booking opens is under an id that no other market's claim has.
pub proof fn law_one_claim_per_market(m: BookModel, call: BookCall)
    requires
        claims_keyed(m),
        one_claim_per_market(m),
        call matches BookCall::Book { booking, .. } ==> (settlement::open_claim(
            m,
            booking.condition_id,
        ) is None ==> !m.claims.dom().contains(
            settlement::fresh_claim_id(m, booking.condition_id),
        )),
    ensures
        one_claim_per_market(called(m, call)),
{
    match call {
        BookCall::Book { booking, resolution, now_ms } => {
            lemma_open_claim(m, booking.condition_id);
        },
        BookCall::TakeRedemptions { now_ms } => {
            assert(called(m, call).claims.dom() =~= m.claims.dom());
        },
        _ => {},
    }
}

/// A booking touches its own market alone: the claims of other markets, the watched markets, the
/// closes and the redemptions stay as they were, and what is owed changes by what the market's own
/// claim changes. The claim a booking opens is under an id that no other market's claim has.
pub proof fn law_a_booking_leaves_other_markets_alone(
    m: BookModel,
    b: BookingModel,
    r: MarketResolution,
    now_ms: i64,
)
    requires
        claims_keyed(m),
        one_claim_per_market(m),
        settlement::open_claim(m, b.condition_id) is None ==> !m.claims.dom().contains(
            settlement::fresh_claim_id(m, b.condition_id),
        ),
    ensures
        ({
            let after = settlement::book_step(m, b, r, now_ms);
            &&& one_claim_per_market(after)
            &&& forall|k: Seq<char>| #[trigger]
                m.claims.dom().contains(k) && m.claims[k].condition_id != b.condition_id
                    ==> after.claims.dom().contains(k) && after.claims[k] == m.claims[k]
            &&& forall|k: Seq<char>| #[trigger]
                after.claims.dom().contains(k) && !m.claims.dom().contains(k)
                    ==> after.claims[k].condition_id == b.condition_id
            &&& after.queries == m.queries
            &&& after.closed == m.closed
            &&& after.redeemed == m.redeemed
            &&& after.redeemed_per_condition == m.redeemed_per_condition
            &&& settlement::owed(after) == settlement::owed(m) + match settlement::target_claim(
                m,
                b,
            ) {
                Some(id) => if m.applied.dom().contains(b.key) {
                    0
                } else {
                    after.claims[id].payout_usd@ - if m.claims.dom().contains(id) {
                        m.claims[id].payout_usd@
                    } else {
                        0
                    }
                },
                None => 0,
            }
        }),
{
    let after = settlement::book_step(m, b, r, now_ms);
    lemma_open_claim(m, b.condition_id);
    if !m.applied.dom().contains(b.key) {
        match settlement::target_claim(m, b) {
            Some(id) => {
                settlement::lemma_worth_of_map(m.claims, id, after.claims[id]);
            },
            None => {},
        }
    }
}

/// A booking that is new to the book adds its payout to what is owed, no more and no less, where
/// the addition to the market's claim needs no rounding.
pub proof fn law_a_booking_adds_its_payout(
    m: BookModel,
    b: BookingModel,
    r: MarketResolution,
    now_ms: i64,
)
    requires
        claims_keyed(m),
        !m.applied.dom().contains(b.key),
        b.payout_usd@ >= 0,
        b.payout_usd.well_formed(),
        settlement::target_claim(m, b) matches Some(id) ==> (m.claims.dom().contains(id)
            ==> m.claims[id].payout_usd.well_formed() && m.claims[id].payout_usd.plus_plain(
            b.payout_usd,
        )),
    ensures
        settlement::owed(settlement::book_step(m, b, r, now_ms)) == settlement::owed(m)
            + b.payout_usd@,
{
    let after = settlement::book_step(m, b, r, now_ms);
    match settlement::target_claim(m, b) {
        Some(id) => {
            settlement::lemma_worth_of_map(m.claims, id, after.claims[id]);
            if m.claims.dom().contains(id) {
                decimal::lemma_plus_plain(m.claims[id].payout_usd, b.payout_usd);
            } else {
                decimal::lemma_zero();
                decimal::lemma_zero_plus(b.payout_usd);
            }
        },
        None => {},
    }
}

/// A text without the mark that sets a claim's counter apart.
pub open spec fn unmarked(t: Seq<char>) -> bool {
    forall|i: int| 0 <= i < t.len() ==> #[trigger] t[i] != '#'
}

/// The name of a market's `n`-th claim.
pub open spec fn claim_name(condition_id: Seq<char>, n: int) -> Seq<char> {
    if n == 1 {
        condition_id
    } else {
        condition_id + seq!['#'] + text::nat_text(n as nat)
    }
}

/// Different markets and different counters give different names.
proof fn lemma_claim_name_injective(a: Seq<char>, m: int, b: Seq<char>, n: int)
    requires
        unmarked(a),
        unmarked(b),
        m >= 1,
        n >= 1,
        claim_name(a, m) == claim_name(b, n),
    ensures
        a == b,
        m == n,
{
    let x = claim_name(a, m);
    text::lemma_nat_text_digits(m as nat);
    text::lemma_nat_text_digits(n as nat);
    if m == 1 && n == 1 {
    } else if m == 1 {
        assert(x[b.len() as int] == '#');
        assert(a[b.len() as int] == '#');
    } else if n == 1 {
        assert(x[a.len() as int] == '#');
        assert(b[a.len() as int] == '#');
    } else {
        if a.len() < b.len() {
            assert(x[a.len() as int] == '#');
            assert(b[a.len() as int] == x[a.len() as int]);
        } else if b.len() < a.len() {
            assert(x[b.len() as int] == '#');
            assert(a[b.len() as int] == x[b.len() as int]);
        }
        assert(x.take(a.len() as int) =~= a);
        assert(x.take(b.len() as int) =~= b);
        assert(x.skip((a.len() + 1) as int) =~= text::nat_text(m as nat));
        assert(x.skip((b.len() + 1) as int) =~= text::nat_text(n as nat));
        text::lemma_nat_text_injective(m as nat, n as nat);
    }
}

/// A new claim is named by its place among the claims of its market: the market's own id where none
/// was redeemed before it, else the id, a mark and the place. So its name differs from the names
/// that the market's redeemed claims had.
pub proof fn law_a_claim_is_named_by_its_place(m: BookModel, condition_id: Seq<char>, n: int)
    requires
        !m.claims.dom().contains(condition_id),
        1 <= n <= settlement::redeemed_of(m, condition_id),
    ensures
        settlement::fresh_claim_id(m, condition_id) == claim_name(
            condition_id,
            settlement::redeemed_of(m, condition_id) + 1,
        ),
        settlement::fresh_claim_id(m, condition_id) != claim_name(condition_id, n),
{
    let k = settlement::redeemed_of(m, condition_id) + 1;
    let x = claim_name(condition_id, k);
    let y = claim_name(condition_id, n);
    if x == y {
        let from = (condition_id.len() + 1) as int;
        assert(x[from - 1] == '#');
        assert(n != 1);
        assert(x.skip(from) =~= text::nat_text(k as nat));
        assert(y.skip(from) =~= text::nat_text(n as nat));
        text::lemma_nat_text_injective(k as nat, n as nat);
    }
}

/// The first claim of a market is named like the market.
pub proof fn law_a_first_claim_is_named_like_its_market(m: BookModel, condition_id: Seq<char>)
    requires
        !m.claims.dom().contains(condition_id),
        settlement::redeemed_of(m, condition_id) == 0,
    ensures
        settlement::fresh_claim_id(m, condition_id) == condition_id,
{
}

/// The claims and redemptions of a book are named in turn: the redeemed claims of a market have
/// the first names, and its open claim has the next one.
pub open spec fn named_in_turn(m: BookModel) -> bool {
    &&& forall|k: Seq<char>| #[trigger]
        m.claims.dom().contains(k) ==> unmarked(m.claims[k].condition_id) && k == claim_name(
            m.claims[k].condition_id,
            settlement::redeemed_of(m, m.claims[k].condition_id) + 1,
        )
    &&& forall|k: Seq<char>| #[trigger]
        m.redeemed.contains(k) ==> exists|c: Seq<char>, n: int|
            #![trigger claim_name(c, n)]
            unmarked(c) && 1 <= n <= settlement::redeemed_of(m, c) && k == claim_name(c, n)
}

/// Claims stay named in turn, whatever is called, as long as market ids hold no `#`.
pub proof fn law_claims_are_named_in_turn(m: BookModel, call: BookCall)
    requires
        claims_keyed(m),
        named_in_turn(m),
        call_ok(m, call),
        call matches BookCall::Book { booking, .. } ==> unmarked(booking.condition_id),
    ensures
        named_in_turn(called(m, call)),
{
    let n = called(m, call);
    match call {
        BookCall::Book { booking, resolution, now_ms } => {
            lemma_open_claim(m, booking.condition_id);
            let c = booking.condition_id;
            if !m.applied.dom().contains(booking.key) {
                if settlement::open_claim(m, c) is None {
                    assert(claim_name(c, 1) == c);
                    if m.claims.dom().contains(c) {
                        let d = m.claims[c].condition_id;
                        lemma_claim_name_injective(c, 1, d, settlement::redeemed_of(m, d) + 1);
                        assert(false);
                    }
                }
                assert forall|k: Seq<char>| #[trigger] n.claims.dom().contains(k) implies unmarked(
                    n.claims[k].condition_id,
                ) && k == claim_name(
                    n.claims[k].condition_id,
                    settlement::redeemed_of(n, n.claims[k].condition_id) + 1,
                ) by {
                    assert(settlement::redeemed_of(n, n.claims[k].condition_id)
                        == settlement::redeemed_of(m, n.claims[k].condition_id));
                    if m.claims.dom().contains(k) {
                        assert(n.claims[k].condition_id == m.claims[k].condition_id);
                    }
                }
                assert forall|k: Seq<char>| #[trigger] n.redeemed.contains(k) implies exists|
                    c: Seq<char>,
                    j: int,
                |
                    #![trigger claim_name(c, j)]
                    unmarked(c) && 1 <= j <= settlement::redeemed_of(n, c) && k == claim_name(
                        c,
                        j,
                    ) by {
                    let (d, j) = choose|d: Seq<char>, j: int|
                        #![trigger claim_name(d, j)]
                        unmarked(d) && 1 <= j <= settlement::redeemed_of(m, d) && k == claim_name(
                            d,
                            j,
                        );
                    assert(settlement::redeemed_of(n, d) == settlement::redeemed_of(m, d));
                }
            }
        },
        BookCall::NoteConfirmed { id, tx_hash, block_number, now_ms } => {
            if m.claims.dom().contains(id) {
                let c = m.claims[id].condition_id;
                let used = settlement::redeemed_of(m, c);
                assert(settlement::redeemed_of(n, c) == used + 1);
                assert forall|k: Seq<char>| #[trigger] n.claims.dom().contains(k) implies unmarked(
                    n.claims[k].condition_id,
                ) && k == claim_name(
                    n.claims[k].condition_id,
                    settlement::redeemed_of(n, n.claims[k].condition_id) + 1,
                ) by {
                    assert(m.claims.dom().contains(k));
                    let d = m.claims[k].condition_id;
                    if d == c {
                        assert(k == id);
                    } else {
                        assert(settlement::redeemed_of(n, d) == settlement::redeemed_of(m, d));
                    }
                }
                assert forall|k: Seq<char>| #[trigger] n.redeemed.contains(k) implies exists|
                    d: Seq<char>,
                    j: int,
                |
                    #![trigger claim_name(d, j)]
                    unmarked(d) && 1 <= j <= settlement::redeemed_of(n, d) && k == claim_name(
                        d,
                        j,
                    ) by {
                    if k == id {
                        assert(k == claim_name(c, used + 1));
                    } else {
                        assert(m.redeemed.contains(k));
                        let (d, j) = choose|d: Seq<char>, j: int|
                            #![trigger claim_name(d, j)]
                            unmarked(d) && 1 <= j <= settlement::redeemed_of(m, d) && k
                                == claim_name(d, j);
                        if d != c {
                            assert(settlement::redeemed_of(n, d) == settlement::redeemed_of(m, d));
                        }
                        assert(k == claim_name(d, j));
                    }
                }
            }
        },
        BookCall::TakeRedemptions { now_ms } => {
            assert(n.claims.dom() =~= m.claims.dom());
            assert forall|k: Seq<char>| #[trigger] n.claims.dom().contains(k) implies unmarked(
                n.claims[k].condition_id,
            ) && k == claim_name(
                n.claims[k].condition_id,
                settlement::redeemed_of(n, n.claims[k].condition_id) + 1,
            ) by {
                assert(m.claims.dom().contains(k));
            }
            lemma_redeemed_kept(m, n);
        },
        BookCall::NoteFailure { id, message, manual, now_ms } => {
            assert forall|k: Seq<char>| #[trigger] n.claims.dom().contains(k) implies unmarked(
                n.claims[k].condition_id,
            ) && k == claim_name(
                n.claims[k].condition_id,
                settlement::redeemed_of(n, n.claims[k].condition_id) + 1,
            ) by {
                assert(m.claims.dom().contains(k));
            }
            lemma_redeemed_kept(m, n);
        },
        _ => {
            assert forall|k: Seq<char>| #[trigger] n.claims.dom().contains(k) implies unmarked(
                n.claims[k].condition_id,
            ) && k == claim_name(
                n.claims[k].condition_id,
                settlement::redeemed_of(n, n.claims[k].condition_id) + 1,
            ) by {
                assert(m.claims.dom().contains(k));
            }
            lemma_redeemed_kept(m, n);
        },
    }
}

proof fn lemma_redeemed_kept(m: BookModel, n: BookModel)
    requires
        named_in_turn(m),
        n.redeemed == m.redeemed,
        n.redeemed_per_condition == m.redeemed_per_condition,
    ensures
        forall|k: Seq<char>| #[trigger]
            n.redeemed.contains(k) ==> exists|c: Seq<char>, j: int|
                #![trigger claim_name(c, j)]
                unmarked(c) && 1 <= j <= settlement::redeemed_of(n, c) && k == claim_name(c, j),
{
    assert forall|k: Seq<char>| #[trigger] n.redeemed.contains(k) implies exists|
        c: Seq<char>,
        j: int,
    |
        #![trigger claim_name(c, j)]
        unmarked(c) && 1 <= j <= settlement::redeemed_of(n, c) && k == claim_name(c, j) by {
        let (d, j) = choose|d: Seq<char>, j: int|
            #![trigger claim_name(d, j)]
            unmarked(d) && 1 <= j <= settlement::redeemed_of(m, d) && k == claim_name(d, j);
        assert(settlement::redeemed_of(n, d) == settlement::redeemed_of(m, d));
        assert(k == claim_name(d, j));
    }
}

/// The id of a redeemed claim is not used again: the claim that a booking opens has an id that
/// neither a redeemed claim nor an open one has.
pub proof fn law_a_redeemed_claim_id_is_never_reused(m: BookModel, b: BookingModel)
    requires
        claims_keyed(m),
        named_in_turn(m),
        unmarked(b.condition_id),
        settlement::open_claim(m, b.condition_id) is None,
    ensures
        !m.redeemed.contains(settlement::fresh_claim_id(m, b.condition_id)),
        !m.claims.dom().contains(settlement::fresh_claim_id(m, b.condition_id)),
{
    let c = b.condition_id;
    let id = settlement::fresh_claim_id(m, c);
    let used = settlement::redeemed_of(m, c);
    lemma_open_claim(m, c);
    assert(claim_name(c, 1) == c);
    if m.claims.dom().contains(c) {
        let d = m.claims[c].condition_id;
        lemma_claim_name_injective(c, 1, d, settlement::redeemed_of(m, d) + 1);
    }
    assert(id == claim_name(c, used + 1));
    if m.redeemed.contains(id) {
        let (d, j) = choose|d: Seq<char>, j: int|
            #![trigger claim_name(d, j)]
            unmarked(d) && 1 <= j <= settlement::redeemed_of(m, d) && id == claim_name(d, j);
        lemma_claim_name_injective(c, used + 1, d, j);
    }
    if m.claims.dom().contains(id) {
        let d = m.claims[id].condition_id;
        lemma_claim_name_injective(c, used + 1, d, settlement::redeemed_of(m, d) + 1);
    }
}

/// A claim in flight is not sent again before its backoff is over, and is due once it is, unless
/// it was left to the operator.
pub proof fn law_a_claim_in_flight_waits_for_its_backoff(c: ClaimModel, now_ms: i64, later_ms: i64)
    requires
        settlement::claim_due(c, now_ms),
        settlement::claim_sent_ok(c, now_ms),
    ensures
        settlement::claim_due(settlement::claim_sent(c, now_ms), later_ms) <==> later_ms >= now_ms
            + settlement::backoff((c.attempts + 1) as u32),
{
}

/// What is handed out is handed out once: right after the claims that were due were handed out none
/// is due, and each of them waits for its own backoff.
pub proof fn law_a_second_take_hands_out_nothing(m: BookModel, now_ms: i64)
    requires
        m.claims.dom().finite(),
        forall|k: Seq<char>| #[trigger]
            m.claims.dom().contains(k) ==> settlement::claim_sent_ok(m.claims[k], now_ms),
    ensures
        ({
            let after = settlement::redemptions_step(m, now_ms);
            &&& settlement::requests_due(str_map::ordered(after.claims), now_ms).len() == 0
            &&& after.claims.dom() == m.claims.dom()
            &&& forall|k: Seq<char>| #[trigger]
                m.claims.dom().contains(k) ==> if settlement::claim_due(m.claims[k], now_ms) {
                    &&& after.claims[k].attempts == m.claims[k].attempts + 1
                    &&& after.claims[k].next_attempt_ms == now_ms + settlement::backoff(
                        after.claims[k].attempts,
                    )
                    &&& after.claims[k].next_attempt_ms > now_ms
                } else {
                    after.claims[k] == m.claims[k]
                }
            &&& settlement::owed(after) == settlement::owed(m)
        }),
{
    let after = settlement::redemptions_step(m, now_ms);
    assert(after.claims.dom() =~= m.claims.dom());
    let s = str_map::ordered(after.claims);
    str_map::lemma_has_order(after.claims);
    str_map::lemma_entries_map(s);
    assert forall|i: int| 0 <= i < s.len() implies !settlement::claim_due(
        (#[trigger] s[i]).1,
        now_ms,
    ) by {
        assert(after.claims.dom().contains(s[i].0));
        assert(m.claims.dom().contains(s[i].0));
    }
    lemma_nothing_due(s, now_ms);
    law_only_bookings_and_redemptions_move_the_receivable(m, BookCall::TakeRedemptions { now_ms });
}

proof fn lemma_nothing_due(s: Seq<(Seq<char>, ClaimModel)>, now_ms: i64)
    requires
        forall|i: int| 0 <= i < s.len() ==> !settlement::claim_due((#[trigger] s[i]).1, now_ms),
    ensures
        settlement::requests_due(s, now_ms).len() == 0,
    decreases s.len(),
{
    if s.len() > 0 {
        let front = s.drop_last();
        assert forall|i: int| 0 <= i < front.len() implies !settlement::claim_due(
            (#[trigger] front[i]).1,
            now_ms,
        ) by {
            assert(front[i] == s[i]);
        }
        lemma_nothing_due(front, now_ms);
        assert(s[s.len() - 1] == s.last());
    }
}

/// A redemption that lands takes its own claim out and nothing else: every other claim, every
/// record, every close and every watched market stays, the claim counts as redeemed, and one line is
/// added to the journal. One on a claim that is not owed changes nothing.
pub proof fn law_a_redemption_takes_one_claim_out(
    m: BookModel,
    id: Seq<char>,
    tx_hash: Option<Seq<char>>,
    block_number: Option<u64>,
    now_ms: i64,
)
    requires
        m.redeemed.finite(),
        m.claims.dom().contains(id) ==> !m.redeemed.contains(id),
    ensures
        ({
            let after = settlement::confirm_step(m, id, tx_hash, block_number, now_ms);
            if m.claims.dom().contains(id) {
                &&& settlement::confirmed_payout(m, id) == Some(m.claims[id].payout_usd)
                &&& after.claims == m.claims.remove(id)
                &&& after.redeemed == m.redeemed.insert(id)
                &&& after.redeemed.len() == m.redeemed.len() + 1
                &&& after.applied == m.applied
                &&& after.closed == m.closed
                &&& after.queries == m.queries
                &&& after.journal == match m.journal {
                    Some(lines) => Some(
                        lines.push(
                            LineModel::Redeemed { at_ms: now_ms, claim_id: id, tx_hash, block_number },
                        ),
                    ),
                    None => None,
                }
            } else {
                after == m && settlement::confirmed_payout(m, id) is None
            }
        }),
{
}

/// A claim that is rebuilt from the journal redeems what was booked: the shares that a booking parks
/// in its claim are those that its record describes.
pub proof fn law_a_record_describes_the_booked_shares(
    m: BookModel,
    b: BookingModel,
    r: MarketResolution,
    now_ms: i64,
)
    ensures
        ({
            let record = settlement::booked_record(m, b, r, now_ms);
            let booked = settlement::parked(
                settlement::outcomes(r.payouts@.len() as usize),
                b.outcome_index,
                b.shares,
            );
            &&& booked == settlement::parked(
                settlement::outcomes(record.outcome_count),
                record.outcome_index,
                record.shares,
            )
            &&& booked.len() >= 2
            &&& forall|i: int|
                0 <= i < booked.len() ==> #[trigger] booked[i] == if b.outcome_index == Some(
                    i as usize,
                ) {
                    b.shares
                } else {
                    decimal::Decimal::spec_zero()
                }
        }),
{
}

/// A call that redeems the claim under an id.
pub open spec fn redeems(call: BookCall, id: Seq<char>) -> bool {
    call matches BookCall::NoteConfirmed { id: other, .. } && other == id
}

/// A claim that is left to the operator and has no retry coming.
pub open spec fn left_to_the_operator(m: BookModel, id: Seq<char>) -> bool {
    m.claims.dom().contains(id) && m.claims[id].manual && m.claims[id].next_attempt_ms == i64::MAX
}

proof fn lemma_no_request(s: Seq<(Seq<char>, ClaimModel)>, id: Seq<char>, now_ms: i64)
    requires
        forall|i: int|
            0 <= i < s.len() && (#[trigger] s[i]).1.id == id ==> !settlement::claim_due(
                s[i].1,
                now_ms,
            ),
    ensures
        forall|i: int|
            0 <= i < settlement::requests_due(s, now_ms).len() ==> (
            #[trigger] settlement::requests_due(s, now_ms)[i]).id != id,
    decreases s.len(),
{
    if s.len() > 0 {
        let front = s.drop_last();
        assert forall|i: int| 0 <= i < front.len() && (#[trigger] front[i]).1.id
            == id implies !settlement::claim_due(front[i].1, now_ms) by {
            assert(front[i] == s[i]);
        }
        lemma_no_request(front, id, now_ms);
        assert(s[s.len() - 1] == s.last());
        let rest = settlement::requests_due(front, now_ms);
        let all = settlement::requests_due(s, now_ms);
        assert forall|i: int| 0 <= i < all.len() implies (#[trigger] all[i]).id != id by {
            if i < rest.len() {
                assert(all[i] == rest[i]);
            }
        }
    }
}

/// A manual failure stops the automatic retries for good. Whatever is called after it, later
/// failures included, the claim stays left to the operator until it is redeemed, and no request for
/// it is handed out at any time.
pub proof fn law_a_manual_verdict_stops_the_retries(
    m: BookModel,
    id: Seq<char>,
    message: Seq<char>,
    now_ms: i64,
    calls: Seq<BookCall>,
    later_ms: i64,
)
    requires
        claims_keyed(m),
        m.claims.dom().contains(id),
        forall|i: int| 0 <= i < calls.len() ==> !redeems(#[trigger] calls[i], id),
    ensures
        ({
            let after = called_all(
                settlement::failure_step(m, id, message, true, now_ms),
                calls,
            );
            let requests = settlement::requests_due(str_map::ordered(after.claims), later_ms);
            &&& claims_keyed(after)
            &&& left_to_the_operator(after, id)
            &&& !settlement::claim_due(after.claims[id], later_ms)
            &&& forall|i: int| 0 <= i < requests.len() ==> (#[trigger] requests[i]).id != id
        }),
    decreases calls.len(),
{
    let failed = settlement::failure_step(m, id, message, true, now_ms);
    let after = called_all(failed, calls);
    if calls.len() > 0 {
        let front = calls.drop_last();
        assert forall|i: int| 0 <= i < front.len() implies !redeems(#[trigger] front[i], id) by {
            assert(front[i] == calls[i]);
        }
        law_a_manual_verdict_stops_the_retries(m, id, message, now_ms, front, later_ms);
        let before = called_all(failed, front);
        let call = calls[calls.len() - 1];
        assert(call == calls.last());
        match call {
            BookCall::Book { booking, resolution, now_ms } => {
                lemma_open_claim(before, booking.condition_id);
            },
            BookCall::TakeRedemptions { now_ms } => {
                assert(after.claims.dom() =~= before.claims.dom());
            },
            _ => {},
        }
    }
    let s = str_map::ordered(after.claims);
    str_map::lemma_has_order(after.claims);
    str_map::lemma_entries_map(s);
    assert forall|i: int| 0 <= i < s.len() && (#[trigger] s[i]).1.id
        == id implies !settlement::claim_due(s[i].1, later_ms) by {
        assert(after.claims.dom().contains(s[i].0));
    }
    lemma_no_request(s, id, later_ms);
}

/// A claim whose problem is newer than that of any other claim.
pub open spec fn newest_problem(m: BookModel, id: Seq<char>) -> bool {
    &&& m.claims.dom().contains(id)
    &&& m.claims[id].last_error is Some
    &&& forall|k: Seq<char>| #[trigger]
        m.claims.dom().contains(k) && k != id && m.claims[k].last_error is Some
            ==> m.claims[k].failed_no < m.claims[id].failed_no
}

proof fn lemma_last_failed(s: Seq<(Seq<char>, ClaimModel)>, i: int)
    requires
        0 <= i < s.len(),
        s[i].1.last_error is Some,
        forall|j: int|
            0 <= j < s.len() && j != i && (#[trigger] s[j]).1.last_error is Some
                ==> s[j].1.failed_no < s[i].1.failed_no,
    ensures
        settlement::last_failed(s) == Some(s[i].1),
    decreases s.len(),
{
    let front = s.drop_last();
    if i == s.len() - 1 {
        assert forall|j: int| 0 <= j < front.len() && (#[trigger] front[j]).1.last_error is Some
            implies front[j].1.failed_no <= s[i].1.failed_no by {
            assert(front[j] == s[j]);
        }
        lemma_last_failed_bound(front, s[i].1.failed_no);
    } else {
        assert(front[i] == s[i]);
        assert forall|j: int| 0 <= j < front.len() && j != i && (
        #[trigger] front[j]).1.last_error is Some implies front[j].1.failed_no
            < front[i].1.failed_no by {
            assert(front[j] == s[j]);
        }
        lemma_last_failed(front, i);
        assert(s[s.len() - 1] == s.last());
    }
}

proof fn lemma_last_failed_bound(s: Seq<(Seq<char>, ClaimModel)>, bound: u64)
    requires
        forall|j: int|
            0 <= j < s.len() && (#[trigger] s[j]).1.last_error is Some ==> s[j].1.failed_no
                <= bound,
    ensures
        settlement::last_failed(s) matches Some(c) ==> c.failed_no <= bound,
    decreases s.len(),
{
    if s.len() > 0 {
        let front = s.drop_last();
        assert forall|j: int| 0 <= j < front.len() && (#[trigger] front[j]).1.last_error is Some
            implies front[j].1.failed_no <= bound by {
            assert(front[j] == s[j]);
        }
        lemma_last_failed_bound(front, bound);
        assert(s[s.len() - 1] == s.last());
    }
}

/// The newest redemption problem is the one that is shown: a failure is shown from the moment that
/// it is noted, and no other call but a failure or the claim's redemption puts another one in its
/// place.
pub proof fn law_the_newest_problem_is_shown(
    m: BookModel,
    id: Seq<char>,
    message: Seq<char>,
    manual: bool,
    now_ms: i64,
    calls: Seq<BookCall>,
)
    requires
        settlement::book_inv(m),
        m.claims.dom().contains(id),
        m.failures < u64::MAX,
        forall|i: int|
            0 <= i < calls.len() ==> !redeems(#[trigger] calls[i], id) && !(
            calls[i] is NoteFailure),
    ensures
        ({
            let after = called_all(
                settlement::failure_step(m, id, message, manual, now_ms),
                calls,
            );
            let shown = settlement::last_failed(str_map::ordered(after.claims));
            &&& claims_keyed(after)
            &&& newest_problem(after, id)
            &&& shown == Some(after.claims[id])
            &&& shown->0.id == id
            &&& shown->0.last_error == Some(message)
        }),
    decreases calls.len(),
{
    let failed = settlement::failure_step(m, id, message, manual, now_ms);
    let after = called_all(failed, calls);
    if calls.len() > 0 {
        let front = calls.drop_last();
        assert forall|i: int| 0 <= i < front.len() implies !redeems(#[trigger] front[i], id) && !(
        front[i] is NoteFailure) by {
            assert(front[i] == calls[i]);
        }
        law_the_newest_problem_is_shown(m, id, message, manual, now_ms, front);
        let before = called_all(failed, front);
        let call = calls[calls.len() - 1];
        assert(call == calls.last());
        match call {
            BookCall::Book { booking, resolution, now_ms } => {
                lemma_open_claim(before, booking.condition_id);
            },
            BookCall::TakeRedemptions { now_ms } => {
                assert(after.claims.dom() =~= before.claims.dom());
            },
            _ => {},
        }
    }
    let s = str_map::ordered(after.claims);
    str_map::lemma_has_order(after.claims);
    str_map::lemma_entries_map(s);
    assert(str_map::entries_map(s).dom().contains(id));
    let i = choose|i: int| 0 <= i < s.len() && #[trigger] s[i].0 == id;
    assert forall|j: int| 0 <= j < s.len() && j != i && (#[trigger] s[j]).1.last_error is Some
        implies s[j].1.failed_no < s[i].1.failed_no by {
        assert(after.claims.dom().contains(s[j].0));
        text::lemma_text_before_irreflexive(id);
        assert(j < i ==> text::text_before(s[j].0, s[i].0));
        assert(i < j ==> text::text_before(s[i].0, s[j].0));
    }
    lemma_last_failed(s, i);
}

/// The retry delay never shrinks with the attempts and stays between the base and the ceiling.
pub proof fn law_the_backoff_grows_to_its_ceiling(a: u32, b: u32)
    requires
        a <= b,
    ensures
        settlement::RETRY_BASE_MS <= settlement::backoff(a) <= settlement::backoff(b)
            <= settlement::RETRY_MAX_MS,
{
}

/// A query that was handed out is not handed out again within [`settlement::REQUERY_MS`], whether
/// the venue stays silent or answers at once.
pub proof fn law_a_query_is_asked_at_most_once_per_interval(
    q: QueryModel,
    now_ms: i64,
    later_ms: i64,
)
    requires
        0 < now_ms <= later_ms <= now_ms + settlement::REQUERY_MS,
        now_ms + settlement::REQUERY_MS <= i64::MAX,
    ensures
        !settlement::query_due(settlement::query_sent(q, now_ms), later_ms),
        later_ms < now_ms + settlement::REQUERY_MS ==> !settlement::query_due(
            settlement::query_answered(q, now_ms),
            later_ms,
        ),
{
}

/// The question on a market is among those that are handed out.
pub open spec fn asks(m: BookModel, condition_id: Seq<char>, now_ms: i64) -> bool {
    let questions = settlement::questions_due(str_map::ordered(m.queries), now_ms);
    exists|i: int|
        0 <= i < questions.len() && (#[trigger] questions[i]).condition_id == condition_id
}

proof fn lemma_questions(s: Seq<(Seq<char>, QueryModel)>, condition_id: Seq<char>, now_ms: i64)
    ensures
        ({
            let questions = settlement::questions_due(s, now_ms);
            (exists|i: int|
                0 <= i < questions.len() && (#[trigger] questions[i]).condition_id
                    == condition_id) == (exists|j: int|
                0 <= j < s.len() && (#[trigger] s[j]).1.condition_id == condition_id
                    && settlement::query_due(s[j].1, now_ms))
        }),
    decreases s.len(),
{
    if s.len() > 0 {
        let front = s.drop_last();
        let rest = settlement::questions_due(front, now_ms);
        let all = settlement::questions_due(s, now_ms);
        lemma_questions(front, condition_id, now_ms);
        assert(s[s.len() - 1] == s.last());
        if exists|i: int| 0 <= i < all.len() && (#[trigger] all[i]).condition_id == condition_id {
            let i = choose|i: int|
                0 <= i < all.len() && (#[trigger] all[i]).condition_id == condition_id;
            if i < rest.len() {
                assert(all[i] == rest[i]);
                let j = choose|j: int|
                    0 <= j < front.len() && (#[trigger] front[j]).1.condition_id == condition_id
                        && settlement::query_due(front[j].1, now_ms);
                assert(s[j] == front[j]);
            }
        }
        if exists|j: int|
            0 <= j < s.len() && (#[trigger] s[j]).1.condition_id == condition_id
                && settlement::query_due(s[j].1, now_ms) {
            let j = choose|j: int|
                0 <= j < s.len() && (#[trigger] s[j]).1.condition_id == condition_id
                    && settlement::query_due(s[j].1, now_ms);
            if j < front.len() {
                assert(front[j] == s[j]);
                let i = choose|i: int|
                    0 <= i < rest.len() && (#[trigger] rest[i]).condition_id == condition_id;
                assert(all[i] == rest[i]);
            } else {
                assert(all[rest.len() as int].condition_id == condition_id);
            }
        }
    }
}

/// Queries stand under their own markets.
pub open spec fn queries_keyed(m: BookModel) -> bool {
    &&& m.queries.dom().finite()
    &&& forall|k: Seq<char>| #[trigger]
        m.queries.dom().contains(k) ==> m.queries[k].condition_id == k
}

/// A market is asked about exactly where it is watched and its query is due.
pub proof fn lemma_asks(m: BookModel, condition_id: Seq<char>, now_ms: i64)
    requires
        queries_keyed(m),
    ensures
        asks(m, condition_id, now_ms) == (m.queries.dom().contains(condition_id)
            && settlement::query_due(m.queries[condition_id], now_ms)),
{
    let s = str_map::ordered(m.queries);
    str_map::lemma_has_order(m.queries);
    str_map::lemma_entries_map(s);
    lemma_questions(s, condition_id, now_ms);
    if m.queries.dom().contains(condition_id) {
        assert(str_map::entries_map(s).dom().contains(condition_id));
        let j = choose|j: int| 0 <= j < s.len() && #[trigger] s[j].0 == condition_id;
        assert(s[j].1.condition_id == condition_id);
    }
    if asks(m, condition_id, now_ms) {
        let j = choose|j: int|
            0 <= j < s.len() && (#[trigger] s[j]).1.condition_id == condition_id
                && settlement::query_due(s[j].1, now_ms);
        assert(m.queries.dom().contains(s[j].0));
    }
}

/// The call neither answers on a market, nor drops it, nor hands queries out but in this span of
/// time.
pub open spec fn leaves_the_clock(
    call: BookCall,
    condition_id: Seq<char>,
    from_ms: int,
    to_ms: int,
) -> bool {
    match call {
        BookCall::NoteAnswer { condition_id: other, now_ms } => other != condition_id,
        BookCall::ForgetMarket { condition_id: other } => other != condition_id,
        BookCall::TakeQueries { now_ms } => from_ms <= now_ms <= to_ms,
        _ => true,
    }
}

proof fn lemma_clock_kept(
    m: BookModel,
    condition_id: Seq<char>,
    from_ms: int,
    to_ms: int,
    calls: Seq<BookCall>,
)
    requires
        queries_keyed(m),
        m.queries.dom().contains(condition_id),
        forall|t: i64| from_ms <= t <= to_ms ==> !settlement::query_due(
            m.queries[condition_id],
            t,
        ),
        forall|i: int|
            0 <= i < calls.len() ==> leaves_the_clock(
                #[trigger] calls[i],
                condition_id,
                from_ms,
                to_ms,
            ),
    ensures
        queries_keyed(called_all(m, calls)),
        called_all(m, calls).queries.dom().contains(condition_id),
        called_all(m, calls).queries[condition_id] == (QueryModel {
            token_ids: called_all(m, calls).queries[condition_id].token_ids,
            ..m.queries[condition_id]
        }),
    decreases calls.len(),
{
    if calls.len() > 0 {
        let front = calls.drop_last();
        assert forall|i: int| 0 <= i < front.len() implies leaves_the_clock(
            #[trigger] front[i],
            condition_id,
            from_ms,
            to_ms,
        ) by {
            assert(front[i] == calls[i]);
        }
        lemma_clock_kept(m, condition_id, from_ms, to_ms, front);
        let before = called_all(m, front);
        let after = called_all(m, calls);
        let call = calls[calls.len() - 1];
        assert(call == calls.last());
        match call {
            BookCall::TakeQueries { now_ms } => {
                assert(after.queries.dom() =~= before.queries.dom());
                assert(!settlement::query_due(m.queries[condition_id], now_ms));
            },
            BookCall::TrackMarkets { positions, now_ms } => {
                lemma_watched_keyed(before.queries, positions, now_ms);
                law_only_ended_markets_are_watched(before, positions, now_ms, condition_id);
            },
            _ => {},
        }
    }
}

proof fn lemma_watched_keyed(
    queries: Map<Seq<char>, QueryModel>,
    positions: Seq<OpenPosition>,
    now_ms: i64,
)
    requires
        queries.dom().finite(),
        forall|k: Seq<char>| #[trigger] queries.dom().contains(k) ==> queries[k].condition_id == k,
    ensures
        settlement::watched_all(queries, positions, now_ms).dom().finite(),
        forall|k: Seq<char>| #[trigger]
            settlement::watched_all(queries, positions, now_ms).dom().contains(k)
                ==> settlement::watched_all(queries, positions, now_ms)[k].condition_id == k,
    decreases positions.len(),
{
    if positions.len() > 0 {
        lemma_watched_keyed(queries, positions.drop_last(), now_ms);
    }
}

/// A question that the venue leaves unanswered is asked again once per interval: not within
/// [`settlement::REQUERY_MS`] of being handed out, whatever else is called meanwhile, and right
/// after it.
pub proof fn law_an_unanswered_query_is_asked_again(
    m: BookModel,
    condition_id: Seq<char>,
    now_ms: i64,
    calls: Seq<BookCall>,
    later_ms: i64,
)
    requires
        queries_keyed(m),
        asks(m, condition_id, now_ms),
        0 < now_ms,
        now_ms + settlement::REQUERY_MS < i64::MAX,
        forall|i: int|
            0 <= i < calls.len() ==> leaves_the_clock(
                #[trigger] calls[i],
                condition_id,
                now_ms as int,
                now_ms + settlement::REQUERY_MS,
            ),
    ensures
        ({
            let after = called_all(settlement::queries_step(m, now_ms), calls);
            &&& now_ms <= later_ms <= now_ms + settlement::REQUERY_MS ==> !asks(
                after,
                condition_id,
                later_ms,
            )
            &&& later_ms > now_ms + settlement::REQUERY_MS ==> asks(after, condition_id, later_ms)
        }),
{
    let sent = settlement::queries_step(m, now_ms);
    lemma_asks(m, condition_id, now_ms);
    assert(sent.queries.dom() =~= m.queries.dom());
    lemma_clock_kept(
        sent,
        condition_id,
        now_ms as int,
        now_ms + settlement::REQUERY_MS,
        calls,
    );
    lemma_asks(called_all(sent, calls), condition_id, later_ms);
}

/// A market that the venue answered on is asked about again [`settlement::REQUERY_MS`] after the
/// answer and not before, whether it resolved or not, as long as it is watched.
pub proof fn law_an_answered_market_is_asked_again(
    m: BookModel,
    condition_id: Seq<char>,
    now_ms: i64,
    calls: Seq<BookCall>,
    later_ms: i64,
)
    requires
        queries_keyed(m),
        m.queries.dom().contains(condition_id),
        now_ms + settlement::REQUERY_MS <= i64::MAX,
        forall|i: int|
            0 <= i < calls.len() ==> leaves_the_clock(
                #[trigger] calls[i],
                condition_id,
                i64::MIN as int,
                now_ms + settlement::REQUERY_MS - 1,
            ),
    ensures
        asks(
            called_all(settlement::answer_step(m, condition_id, now_ms), calls),
            condition_id,
            later_ms,
        ) == (later_ms >= now_ms + settlement::REQUERY_MS),
{
    let answered = settlement::answer_step(m, condition_id, now_ms);
    lemma_clock_kept(
        answered,
        condition_id,
        i64::MIN as int,
        now_ms + settlement::REQUERY_MS - 1,
        calls,
    );
    lemma_asks(called_all(answered, calls), condition_id, later_ms);
}

/// The alarm goes off once per episode: it goes off where the venue falls silent, not again while
/// the silence lasts, and again only after the venue was heard in between.
pub proof fn law_silence_is_alerted_once_per_episode(m: BookModel)
    ensures
        !settlement::blind_edge(settlement::blind_step(m, true), true),
        settlement::blind_edge(settlement::blind_step(m, false), true),
        !settlement::blind_edge(m, false),
{
}

/// A text without the mark that sets the parts of a key apart.
pub open spec fn unseparated(t: Seq<char>) -> bool {
    forall|i: int| 0 <= i < t.len() ==> #[trigger] t[i] != ':'
}

/// Positions that differ in market, token or time of entry have different keys, where the ids of
/// markets and tokens hold no `:`.
pub proof fn law_settlement_keys_tell_positions_apart(p: OpenPosition, q: OpenPosition)
    requires
        unseparated(p.condition_id@),
        unseparated(p.token_id@),
        unseparated(q.condition_id@),
        unseparated(q.token_id@),
        settlement::position_key(p) == settlement::position_key(q),
    ensures
        p.condition_id@ == q.condition_id@,
        p.token_id@ == q.token_id@,
        p.entered_at_ms == q.entered_at_ms,
{
    let a = p.condition_id@;
    let b = q.condition_id@;
    let x = settlement::position_key(p);
    assert(x[a.len() as int] == ':');
    assert(x[b.len() as int] == ':');
    if a.len() < b.len() {
        assert(b[a.len() as int] == x[a.len() as int]);
    } else if b.len() < a.len() {
        assert(a[b.len() as int] == x[b.len() as int]);
    }
    assert(x.take(a.len() as int) =~= a);
    assert(x.take(b.len() as int) =~= b);
    let rest = x.skip((a.len() + 1) as int);
    let c = p.token_id@;
    let d = q.token_id@;
    let n = text::int_text(p.entered_at_ms as int);
    let k = text::int_text(q.entered_at_ms as int);
    assert(rest =~= c + seq![':'] + n);
    assert(rest =~= d + seq![':'] + k);
    assert(rest[c.len() as int] == ':');
    assert(rest[d.len() as int] == ':');
    if c.len() < d.len() {
        assert(d[c.len() as int] == rest[c.len() as int]);
    } else if d.len() < c.len() {
        assert(c[d.len() as int] == rest[d.len() as int]);
    }
    assert(rest.take(c.len() as int) =~= c);
    assert(rest.take(d.len() as int) =~= d);
    assert(rest.skip((c.len() + 1) as int) =~= n);
    assert(rest.skip((d.len() + 1) as int) =~= k);
    text::lemma_int_text_injective(p.entered_at_ms as int, q.entered_at_ms as int);
}

/// A market is only watched for a position of its own whose round has ended and whose recorded
/// end does not lie far behind its entry; a market that was watched keeps its query clock.
pub proof fn law_only_ended_markets_are_watched(
    m: BookModel,
    positions: Seq<OpenPosition>,
    now_ms: i64,
    condition_id: Seq<char>,
)
    ensures
        settlement::track_step(m, positions, now_ms).queries.dom().contains(condition_id) ==> (
        m.queries.dom().contains(condition_id) || exists|i: int|
            0 <= i < positions.len() && (#[trigger] positions[i]).condition_id@ == condition_id
                && settlement::trackable(positions[i], now_ms)),
        m.queries.dom().contains(condition_id) ==> {
            let before = m.queries[condition_id];
            let after = settlement::track_step(m, positions, now_ms).queries[condition_id];
            &&& settlement::track_step(m, positions, now_ms).queries.dom().contains(condition_id)
            &&& after == (QueryModel { token_ids: after.token_ids, ..before })
        },
    decreases positions.len(),
{
    if positions.len() > 0 {
        law_only_ended_markets_are_watched(m, positions.drop_last(), now_ms, condition_id);
        let front = positions.drop_last();
        let before = settlement::track_step(m, front, now_ms).queries;
        if before.dom().contains(condition_id) && !m.queries.dom().contains(condition_id) {
            let i = choose|i: int|
                0 <= i < front.len() && (#[trigger] front[i]).condition_id@ == condition_id
                    && settlement::trackable(front[i], now_ms);
            assert(positions[i] == front[i]);
        }
        assert(positions[positions.len() - 1] == positions.last());
    }
}

/// A settlement whose close was noted needs no recovery, at any later time.
pub proof fn law_a_noted_close_is_not_recovered(
    m: BookModel,
    p: OpenPosition,
    now_ms: i64,
    call: BookCall,
)
    ensures
        !settlement::unfinished(
            settlement::close_step(m, settlement::position_key(p), now_ms),
            p,
        ),
        m.closed.contains(settlement::position_key(p)) ==> !settlement::unfinished(
            called(m, call),
            p,
        ),
{
}

} // verus!
