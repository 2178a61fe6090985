//! Settlement and redemption.
//!
//! A position becomes cash in two ways: somebody buys it, or its market resolves and the winning
//! tokens are redeemed. This module holds the second way. A venue's verdict is priced into a
//! booking ([`booking_for`]); the booking is committed once and for all
//! ([`SettlementBook::book`]), and what it earned is a claim, a receivable, until the redemption
//! confirms ([`SettlementBook::note_confirmed`]).
//!
//! What was committed is written to a journal. The book hands out the lines to write
//! ([`SettlementBook::take_journal_lines`]), and a book opened on the lines of an earlier one
//! knows what that one had committed ([`SettlementBook::new`]).
use vstd::prelude::*;
use vstd::string::*;

use crate::decimal;
use crate::decimal::Decimal;
use crate::model;
use crate::model::{
    ExitReason, MarketResolution, OpenPosition, RedemptionFailure, RedemptionRequest, RequestModel,
    SettlementQuery, SettlementQueryModel,
};
use crate::str_map;
use crate::str_map::{StrMap, StrSet};
use crate::text;

verus! {

/// The first retry delay after a failed redemption.
pub const RETRY_BASE_MS: i64 = 5_000;

/// The ceiling on the retry delay.
pub const RETRY_MAX_MS: i64 = 300_000;

/// How long an unanswered query waits before it is asked again.
pub const REQUERY_MS: i64 = 60_000;

/// Silence past this age means that the venue is not answering at all.
pub const BLIND_AFTER_MS: i64 = 300_000;

/// How much later than its market's end a position may have been opened and still be treated as
/// that market's position.
///
/// An expiry far behind the entry is no market end at all, and settling on it would book a
/// receivable against a market that is still running.
pub const EXPIRY_TRUST_MS: i64 = 300_000;

/// The reason that a settled position closes with.
pub const SETTLEMENT_EXIT_REASON: ExitReason = ExitReason::Settlement;

/// One position's settlement, as computed from a verdict.
#[derive(Debug)]
pub struct SettlementBooking {
    /// The idempotency key: a position settles at most once.
    pub key: String,
    pub position_id: String,
    pub condition_id: String,
    pub token_id: String,
    pub strategy: String,
    pub asset: String,
    pub shares: Decimal,
    pub payout_per_share: Decimal,
    /// What the shares are worth: `shares * payout_per_share`.
    pub payout_usd: Decimal,
    pub winning: bool,
    /// The index of the position's token in the verdict's outcome order.
    pub outcome_index: Option<usize>,
    /// The claim that the settlement landed in; empty where there is nothing to redeem.
    pub claim_id: String,
}

/// What a booking says.
pub struct BookingModel {
    pub key: Seq<char>,
    pub position_id: Seq<char>,
    pub condition_id: Seq<char>,
    pub token_id: Seq<char>,
    pub strategy: Seq<char>,
    pub asset: Seq<char>,
    pub shares: Decimal,
    pub payout_per_share: Decimal,
    pub payout_usd: Decimal,
    pub winning: bool,
    pub outcome_index: Option<usize>,
    pub claim_id: Seq<char>,
}

impl View for SettlementBooking {
    type V = BookingModel;

    open spec fn view(&self) -> BookingModel {
        BookingModel {
            key: self.key@,
            position_id: self.position_id@,
            condition_id: self.condition_id@,
            token_id: self.token_id@,
            strategy: self.strategy@,
            asset: self.asset@,
            shares: self.shares,
            payout_per_share: self.payout_per_share,
            payout_usd: self.payout_usd,
            winning: self.winning,
            outcome_index: self.outcome_index,
            claim_id: self.claim_id@,
        }
    }
}

/// The idempotency key of a settled position: market, token and time of entry.
pub open spec fn key_text(
    condition_id: Seq<char>,
    token_id: Seq<char>,
    entered_at_ms: i64,
) -> Seq<char> {
    condition_id + seq![':'] + token_id + seq![':'] + text::int_text(entered_at_ms as int)
}

/// The idempotency key of a settled position.
pub open spec fn position_key(p: OpenPosition) -> Seq<char> {
    key_text(p.condition_id@, p.token_id@, p.entered_at_ms)
}

/// The idempotency key of a settled position. Position ids are per-process counters; the time of
/// entry is what makes the key unique over a long-lived deployment.
pub fn settlement_key(p: &OpenPosition) -> (r: String)
    ensures
        r@ == position_key(*p),
{
    let mut out = p.condition_id.clone();
    out.append(":");
    out.append(p.token_id.as_str());
    out.append(":");
    out.append(text::write_i64(p.entered_at_ms).as_str());
    proof {
        reveal_strlit(":");
        assert(":"@ =~= seq![':']);
    }
    out
}

/// The shares of a position that count: none where the position holds less than none.
pub open spec fn counted_shares(p: OpenPosition) -> Decimal {
    p.shares.spec_max(Decimal::spec_zero())
}

/// What settling a position at a payout books.
pub open spec fn booking_model(p: OpenPosition, payout: Decimal, outcome: usize) -> BookingModel {
    BookingModel {
        key: position_key(p),
        position_id: p.id@,
        condition_id: p.condition_id@,
        token_id: p.token_id@,
        strategy: p.strategy@,
        asset: p.asset@,
        shares: counted_shares(p),
        payout_per_share: payout,
        payout_usd: counted_shares(p).spec_times(payout),
        winning: payout@ > 0,
        outcome_index: Some(outcome),
        claim_id: Seq::empty(),
    }
}

/// The outcome of a position in a verdict on its market.
pub open spec fn held_outcome(p: OpenPosition, resolution: MarketResolution) -> Option<int> {
    if p.condition_id@ == resolution.condition_id@ {
        model::payout_index(resolution.payouts@, p.token_id@)
    } else {
        None
    }
}

/// Computes what settling this position books. It books nothing where the verdict is on another
/// market or does not name the position's token.
pub fn booking_for(p: &OpenPosition, resolution: &MarketResolution) -> (r: Option<
    SettlementBooking,
>)
    requires
        held_outcome(*p, *resolution) matches Some(i) ==> counted_shares(*p).times_ok(
            resolution.payouts@[i].1,
        ),
    ensures
        match held_outcome(*p, *resolution) {
            None => r is None,
            Some(i) => r matches Some(b) && 0 <= i < resolution.payouts@.len() && b@
                == booking_model(*p, resolution.payouts@[i].1, i as usize),
        },
        r matches Some(b) ==> (b.shares.times_exact(b.payout_per_share) ==> b.payout_usd@
            * decimal::one_unit() == b.shares@ * b.payout_per_share@),
        r matches Some(b) ==> b.shares@ == if p.shares@ > 0 {
            p.shares@
        } else {
            0
        },
{
    if p.condition_id != resolution.condition_id {
        return None;
    }
    match resolution.outcome_index(p.token_id.as_str()) {
        None => None,
        Some(i) => {
            let payout_per_share = resolution.payouts[i].1;
            let shares = p.shares.max(Decimal::zero());
            let b = SettlementBooking {
                key: settlement_key(p),
                position_id: p.id.clone(),
                condition_id: p.condition_id.clone(),
                token_id: p.token_id.clone(),
                strategy: p.strategy.clone(),
                asset: p.asset.clone(),
                shares,
                payout_per_share,
                payout_usd: shares.times(payout_per_share),
                winning: payout_per_share.is_positive(),
                outcome_index: Some(i),
                claim_id: String::new(),
            };
            Some(b)
        },
    }
}

/// What one settlement booked, as the journal keeps it.
#[derive(Debug)]
pub struct SettlementRecord {
    pub key: String,
    pub position_id: String,
    pub condition_id: String,
    pub token_id: String,
    pub strategy: String,
    pub asset: String,
    pub shares: Decimal,
    pub payout_per_share: Decimal,
    pub payout_usd: Decimal,
    pub winning: bool,
    pub claim_id: String,
    /// The market settles through the NegRisk adapter.
    pub neg_risk: bool,
    /// The outcome token that the market pays for.
    pub winning_token_id: String,
    /// The position's outcome in the verdict's order, and how many outcomes that order had:
    /// enough to rebuild the redeem amounts.
    pub outcome_index: Option<usize>,
    pub outcome_count: usize,
    pub source: String,
    pub applied_at_ms: i64,
}

impl Clone for SettlementRecord {
    fn clone(&self) -> (r: Self)
        ensures
            r == *self,
    {
        SettlementRecord {
            key: self.key.clone(),
            position_id: self.position_id.clone(),
            condition_id: self.condition_id.clone(),
            token_id: self.token_id.clone(),
            strategy: self.strategy.clone(),
            asset: self.asset.clone(),
            shares: self.shares,
            payout_per_share: self.payout_per_share,
            payout_usd: self.payout_usd,
            winning: self.winning,
            claim_id: self.claim_id.clone(),
            neg_risk: self.neg_risk,
            winning_token_id: self.winning_token_id.clone(),
            outcome_index: self.outcome_index,
            outcome_count: self.outcome_count,
            source: self.source.clone(),
            applied_at_ms: self.applied_at_ms,
        }
    }
}

/// What a settlement record says.
pub struct RecordModel {
    pub key: Seq<char>,
    pub position_id: Seq<char>,
    pub condition_id: Seq<char>,
    pub token_id: Seq<char>,
    pub strategy: Seq<char>,
    pub asset: Seq<char>,
    pub shares: Decimal,
    pub payout_per_share: Decimal,
    pub payout_usd: Decimal,
    pub winning: bool,
    pub claim_id: Seq<char>,
    pub neg_risk: bool,
    pub winning_token_id: Seq<char>,
    pub outcome_index: Option<usize>,
    pub outcome_count: usize,
    pub source: Seq<char>,
    pub applied_at_ms: i64,
}

impl View for SettlementRecord {
    type V = RecordModel;

    open spec fn view(&self) -> RecordModel {
        RecordModel {
            key: self.key@,
            position_id: self.position_id@,
            condition_id: self.condition_id@,
            token_id: self.token_id@,
            strategy: self.strategy@,
            asset: self.asset@,
            shares: self.shares,
            payout_per_share: self.payout_per_share,
            payout_usd: self.payout_usd,
            winning: self.winning,
            claim_id: self.claim_id@,
            neg_risk: self.neg_risk,
            winning_token_id: self.winning_token_id@,
            outcome_index: self.outcome_index,
            outcome_count: self.outcome_count,
            source: self.source@,
            applied_at_ms: self.applied_at_ms,
        }
    }
}

/// A settled position whose collateral has not reached the wallet yet. One claim per market, so
/// that a market with positions on both outcomes redeems once.
#[derive(Debug)]
pub struct RedemptionClaim {
    pub id: String,
    pub condition_id: String,
    pub neg_risk: bool,
    pub winning_token_id: String,
    /// The shares held of each outcome, in the verdict's outcome order.
    pub outcome_shares: Vec<Decimal>,
    pub payout_usd: Decimal,
    pub position_ids: Vec<String>,
    pub created_at_ms: i64,
    /// The attempts handed to the venue.
    pub attempts: u32,
    pub next_attempt_ms: i64,
    /// No retry can land this one: it is left to the operator.
    pub manual: bool,
    pub last_error: Option<String>,
    /// The place of the claim's last failure among all failures of the book; 0 before the first.
    pub failed_no: u64,
    pub tx_hash: Option<String>,
    pub block_number: Option<u64>,
}

/// What a claim says.
pub struct ClaimModel {
    pub id: Seq<char>,
    pub condition_id: Seq<char>,
    pub neg_risk: bool,
    pub winning_token_id: Seq<char>,
    pub outcome_shares: Seq<Decimal>,
    pub payout_usd: Decimal,
    pub position_ids: Seq<Seq<char>>,
    pub created_at_ms: i64,
    pub attempts: u32,
    pub next_attempt_ms: i64,
    pub manual: bool,
    pub last_error: Option<Seq<char>>,
    pub failed_no: u64,
    pub tx_hash: Option<Seq<char>>,
    pub block_number: Option<u64>,
}

impl View for RedemptionClaim {
    type V = ClaimModel;

    open spec fn view(&self) -> ClaimModel {
        ClaimModel {
            id: self.id@,
            condition_id: self.condition_id@,
            neg_risk: self.neg_risk,
            winning_token_id: self.winning_token_id@,
            outcome_shares: self.outcome_shares@,
            payout_usd: self.payout_usd,
            position_ids: model::texts(self.position_ids@),
            created_at_ms: self.created_at_ms,
            attempts: self.attempts,
            next_attempt_ms: self.next_attempt_ms,
            manual: self.manual,
            last_error: model::opt_text(self.last_error),
            failed_no: self.failed_no,
            tx_hash: model::opt_text(self.tx_hash),
            block_number: self.block_number,
        }
    }
}

impl ClaimModel {
    /// The request that redeems the claim.
    pub open spec fn request(self) -> RequestModel {
        RequestModel {
            id: self.id,
            condition_id: self.condition_id,
            neg_risk: self.neg_risk,
            outcome_shares: self.outcome_shares,
            expected_payout_usd: self.payout_usd,
            winning_token_id: self.winning_token_id,
        }
    }
}

impl RedemptionClaim {
    /// The request that redeems the claim.
    pub fn request(&self) -> (r: RedemptionRequest)
        ensures
            r@ == self@.request(),
    {
        RedemptionRequest {
            id: self.id.clone(),
            condition_id: self.condition_id.clone(),
            neg_risk: self.neg_risk,
            outcome_shares: model::clone_decimals(&self.outcome_shares),
            expected_payout_usd: self.payout_usd,
            winning_token_id: self.winning_token_id.clone(),
        }
    }
}

/// How the query on one market is going.
#[derive(Debug)]
pub struct QueryState {
    pub condition_id: String,
    /// The tokens held on this market, as a lookup hint.
    pub token_ids: Vec<String>,
    pub expires_at_ms: i64,
    /// When the query was first handed to the venue; 0 before that.
    pub first_sent_ms: i64,
    /// When the query was last handed to the venue; 0 while no answer is awaited.
    pub sent_at_ms: i64,
    /// The earliest next dispatch, set by an answer.
    pub next_query_ms: i64,
    /// The answers received, resolved or not.
    pub answers: u32,
}

/// What the state of a query says.
pub struct QueryModel {
    pub condition_id: Seq<char>,
    pub token_ids: Seq<Seq<char>>,
    pub expires_at_ms: i64,
    pub first_sent_ms: i64,
    pub sent_at_ms: i64,
    pub next_query_ms: i64,
    pub answers: u32,
}

impl View for QueryState {
    type V = QueryModel;

    open spec fn view(&self) -> QueryModel {
        QueryModel {
            condition_id: self.condition_id@,
            token_ids: model::texts(self.token_ids@),
            expires_at_ms: self.expires_at_ms,
            first_sent_ms: self.first_sent_ms,
            sent_at_ms: self.sent_at_ms,
            next_query_ms: self.next_query_ms,
            answers: self.answers,
        }
    }
}

/// One line of the settlement journal.
#[derive(Debug)]
pub enum JournalLine {
    /// A position was settled: the commit point.
    Settlement { at_ms: i64, record: Box<SettlementRecord> },
    /// The settled position's close is durable: recovery must not close it again.
    Closed { at_ms: i64, key: String },
    /// A claim's collateral reached the wallet.
    Redeemed {
        at_ms: i64,
        claim_id: String,
        tx_hash: Option<String>,
        block_number: Option<u64>,
    },
}

impl Clone for JournalLine {
    fn clone(&self) -> (r: Self)
        ensures
            r@ == self@,
    {
        match self {
            JournalLine::Settlement { at_ms, record } => JournalLine::Settlement {
                at_ms: *at_ms,
                record: Box::new((**record).clone()),
            },
            JournalLine::Closed { at_ms, key } => JournalLine::Closed {
                at_ms: *at_ms,
                key: key.clone(),
            },
            JournalLine::Redeemed { at_ms, claim_id, tx_hash, block_number } => {
                JournalLine::Redeemed {
                    at_ms: *at_ms,
                    claim_id: claim_id.clone(),
                    tx_hash: tx_hash.clone(),
                    block_number: *block_number,
                }
            },
        }
    }
}

/// What a journal line says.
pub enum LineModel {
    Settlement { at_ms: i64, record: RecordModel },
    Closed { at_ms: i64, key: Seq<char> },
    Redeemed {
        at_ms: i64,
        claim_id: Seq<char>,
        tx_hash: Option<Seq<char>>,
        block_number: Option<u64>,
    },
}

impl View for JournalLine {
    type V = LineModel;

    open spec fn view(&self) -> LineModel {
        match self {
            JournalLine::Settlement { at_ms, record } => LineModel::Settlement {
                at_ms: *at_ms,
                record: record@,
            },
            JournalLine::Closed { at_ms, key } => LineModel::Closed { at_ms: *at_ms, key: key@ },
            JournalLine::Redeemed { at_ms, claim_id, tx_hash, block_number } => {
                LineModel::Redeemed {
                    at_ms: *at_ms,
                    claim_id: claim_id@,
                    tx_hash: model::opt_text(*tx_hash),
                    block_number: *block_number,
                }
            },
        }
    }
}

/// What a list of journal lines says.
pub open spec fn lines_model(lines: Seq<JournalLine>) -> Seq<LineModel> {
    lines.map_values(|l: JournalLine| l@)
}

/// What a settlement book knows.
#[verifier::ext_equal]
pub struct BookModel {
    /// The settlements committed, by key.
    pub applied: Map<Seq<char>, RecordModel>,
    /// The settlements whose close is durable.
    pub closed: Set<Seq<char>>,
    /// The claims not redeemed yet, by id.
    pub claims: Map<Seq<char>, ClaimModel>,
    /// The ids of the claims redeemed.
    pub redeemed: Set<Seq<char>>,
    /// How many claims of each market were redeemed.
    pub redeemed_per_condition: Map<Seq<char>, u32>,
    /// The markets whose verdict is awaited.
    pub queries: Map<Seq<char>, QueryModel>,
    /// The settlements booked in this session.
    pub booked: u64,
    /// The failed redemption attempts in this session.
    pub failures: u64,
    /// Whether the blind state was alerted.
    pub blind_alerted: bool,
    /// The journal lines to write, where there is a journal.
    pub journal: Option<Seq<LineModel>>,
}

/// A book that knows nothing.
pub open spec fn empty_book(journaled: bool) -> BookModel {
    BookModel {
        applied: Map::empty(),
        closed: Set::empty(),
        claims: Map::empty(),
        redeemed: Set::empty(),
        redeemed_per_condition: Map::empty(),
        queries: Map::empty(),
        booked: 0,
        failures: 0,
        blind_alerted: false,
        journal: if journaled {
            Some(Seq::empty())
        } else {
            None
        },
    }
}

/// How many claims of a market were redeemed.
pub open spec fn redeemed_of(m: BookModel, condition_id: Seq<char>) -> u32 {
    if m.redeemed_per_condition.dom().contains(condition_id) {
        m.redeemed_per_condition[condition_id]
    } else {
        0
    }
}

/// A journal with one more line to write.
pub open spec fn noted(journal: Option<Seq<LineModel>>, line: LineModel) -> Option<Seq<LineModel>> {
    match journal {
        Some(lines) => Some(lines.push(line)),
        None => None,
    }
}

/// The larger of two, where the second is the least that counts: two outcomes.
pub open spec fn outcomes(n: usize) -> usize {
    if n < 2 {
        2
    } else {
        n
    }
}

/// A list of `n` share amounts: the shares at their outcome, none elsewhere.
pub open spec fn parked(n: usize, outcome: Option<usize>, shares: Decimal) -> Seq<Decimal> {
    Seq::new(
        n as nat,
        |i: int|
            if outcome matches Some(k) && k == i {
                shares
            } else {
                Decimal::spec_zero()
            },
    )
}

/// Share amounts widened to at least `n` outcomes.
pub open spec fn widened(shares: Seq<Decimal>, n: nat) -> Seq<Decimal> {
    if shares.len() < n {
        shares + Seq::new((n - shares.len()) as nat, |i: int| Decimal::spec_zero())
    } else {
        shares
    }
}

/// Share amounts with others added to them, outcome by outcome.
pub open spec fn summed(shares: Seq<Decimal>, more: Seq<Decimal>) -> Seq<Decimal> {
    Seq::new(
        shares.len(),
        |i: int|
            if i < more.len() {
                shares[i].spec_plus(more[i])
            } else {
                shares[i]
            },
    )
}

/// A claim that holds nothing yet.
pub open spec fn opened_claim(
    id: Seq<char>,
    condition_id: Seq<char>,
    neg_risk: bool,
    winning_token_id: Seq<char>,
    now_ms: i64,
) -> ClaimModel {
    ClaimModel {
        id,
        condition_id,
        neg_risk,
        winning_token_id,
        outcome_shares: Seq::empty(),
        payout_usd: Decimal::spec_zero(),
        position_ids: Seq::empty(),
        created_at_ms: now_ms,
        attempts: 0,
        next_attempt_ms: 0,
        manual: false,
        last_error: None,
        failed_no: 0,
        tx_hash: None,
        block_number: None,
    }
}

/// A claim with one more settled position in it.
pub open spec fn grown_claim(
    c: ClaimModel,
    shares: Seq<Decimal>,
    payout_usd: Decimal,
    position_id: Seq<char>,
    neg_risk: bool,
    winning_token_id: Seq<char>,
) -> ClaimModel {
    ClaimModel {
        outcome_shares: summed(widened(c.outcome_shares, shares.len()), shares),
        payout_usd: c.payout_usd.spec_plus(payout_usd),
        position_ids: c.position_ids.push(position_id),
        neg_risk,
        winning_token_id: if c.winning_token_id.len() == 0 {
            winning_token_id
        } else {
            c.winning_token_id
        },
        ..c
    }
}

/// The claim under an id, or a fresh one that a record would open.
pub open spec fn claim_or_new(
    claims: Map<Seq<char>, ClaimModel>,
    id: Seq<char>,
    condition_id: Seq<char>,
    neg_risk: bool,
    winning_token_id: Seq<char>,
    now_ms: i64,
) -> ClaimModel {
    if claims.dom().contains(id) {
        claims[id]
    } else {
        opened_claim(id, condition_id, neg_risk, winning_token_id, now_ms)
    }
}

/// The claims with a record's settlement in the claim that the record names.
pub open spec fn claims_with(
    claims: Map<Seq<char>, ClaimModel>,
    record: RecordModel,
) -> Map<Seq<char>, ClaimModel> {
    claims.insert(
        record.claim_id,
        grown_claim(
            claim_or_new(
                claims,
                record.claim_id,
                record.condition_id,
                record.neg_risk,
                record.winning_token_id,
                record.applied_at_ms,
            ),
            parked(outcomes(record.outcome_count), record.outcome_index, record.shares),
            record.payout_usd,
            record.position_id,
            record.neg_risk,
            record.winning_token_id,
        ),
    )
}

/// The additions that put a record's settlement into its claim stay in range.
pub open spec fn claims_with_ok(claims: Map<Seq<char>, ClaimModel>, record: RecordModel) -> bool {
    claims.dom().contains(record.claim_id) ==> {
        let c = claims[record.claim_id];
        &&& c.payout_usd.plus_ok(record.payout_usd)
        &&& (record.outcome_index matches Some(k) ==> (k < c.outcome_shares.len()
            ==> c.outcome_shares[k as int].plus_ok(record.shares)))
    }
}

/// A book with a claim redeemed.
pub open spec fn redeemed_claim(m: BookModel, id: Seq<char>) -> BookModel {
    BookModel {
        claims: m.claims.remove(id),
        redeemed_per_condition: if m.claims.dom().contains(id) {
            m.redeemed_per_condition.insert(
                m.claims[id].condition_id,
                (redeemed_of(m, m.claims[id].condition_id) + 1) as u32,
            )
        } else {
            m.redeemed_per_condition
        },
        redeemed: m.redeemed.insert(id),
        ..m
    }
}

/// What a book knows after one line of an earlier book's journal.
pub open spec fn replayed(m: BookModel, line: LineModel) -> BookModel {
    match line {
        LineModel::Settlement { at_ms, record } => BookModel {
            claims: if record.claim_id.len() == 0 {
                m.claims
            } else {
                claims_with(m.claims, record)
            },
            applied: m.applied.insert(record.key, record),
            ..m
        },
        LineModel::Closed { at_ms, key } => BookModel { closed: m.closed.insert(key), ..m },
        LineModel::Redeemed { at_ms, claim_id, tx_hash, block_number } => redeemed_claim(
            m,
            claim_id,
        ),
    }
}

/// The sums that a journal line asks for stay in range.
pub open spec fn replay_ok(m: BookModel, line: LineModel) -> bool {
    match line {
        LineModel::Settlement { at_ms, record } => record.claim_id.len() == 0 || claims_with_ok(
            m.claims,
            record,
        ),
        LineModel::Closed { at_ms, key } => true,
        LineModel::Redeemed { at_ms, claim_id, tx_hash, block_number } => m.claims.dom().contains(
            claim_id,
        ) ==> redeemed_of(m, m.claims[claim_id].condition_id) < u32::MAX,
    }
}

/// What a book knows after an earlier book's journal.
pub open spec fn replayed_all(m: BookModel, lines: Seq<LineModel>) -> BookModel
    decreases lines.len(),
{
    if lines.len() == 0 {
        m
    } else {
        replayed(replayed_all(m, lines.drop_last()), lines.last())
    }
}

/// The sums that a journal asks for stay in range.
pub open spec fn replay_all_ok(m: BookModel, lines: Seq<LineModel>) -> bool
    decreases lines.len(),
{
    lines.len() == 0 || (replay_all_ok(m, lines.drop_last()) && replay_ok(
        replayed_all(m, lines.drop_last()),
        lines.last(),
    ))
}

/// What can be taken in can be taken in in part.
proof fn lemma_replay_prefix(m: BookModel, lines: Seq<LineModel>, n: int)
    requires
        0 <= n <= lines.len(),
        replay_all_ok(m, lines),
    ensures
        replay_all_ok(m, lines.take(n)),
    decreases lines.len(),
{
    if n == lines.len() {
        assert(lines.take(n) =~= lines);
    } else {
        assert(lines.drop_last().take(n) =~= lines.take(n));
        lemma_replay_prefix(m, lines.drop_last(), n);
    }
}

/// The first claim of a market, in the order of the claim ids.
pub open spec fn first_claim(
    s: Seq<(Seq<char>, ClaimModel)>,
    condition_id: Seq<char>,
) -> Option<Seq<char>>
    decreases s.len(),
{
    if s.len() == 0 {
        None
    } else if s[0].1.condition_id == condition_id {
        Some(s[0].1.id)
    } else {
        first_claim(s.drop_first(), condition_id)
    }
}

/// The market's open claim.
pub open spec fn open_claim(m: BookModel, condition_id: Seq<char>) -> Option<Seq<char>> {
    first_claim(str_map::ordered(m.claims), condition_id)
}

/// The id of a market's claim: the market's own id for the first claim, then a counter behind it.
pub open spec fn fresh_claim_id(m: BookModel, condition_id: Seq<char>) -> Seq<char> {
    let used = redeemed_of(m, condition_id);
    if used == 0 && !m.claims.dom().contains(condition_id) {
        condition_id
    } else {
        condition_id + seq!['#'] + text::nat_text((used + 1) as nat)
    }
}

/// The claim that a booking lands in, where there is something to redeem.
pub open spec fn target_claim(m: BookModel, b: BookingModel) -> Option<Seq<char>> {
    match open_claim(m, b.condition_id) {
        Some(id) => Some(id),
        None => if b.payout_usd@ > 0 {
            Some(fresh_claim_id(m, b.condition_id))
        } else {
            None
        },
    }
}

/// The outcome token that a settlement's market pays for.
pub open spec fn paying_token(b: BookingModel, r: MarketResolution) -> Seq<char> {
    match r.winning_token {
        Some(t) => t@,
        None => b.token_id,
    }
}

/// What the journal keeps of a booking.
pub open spec fn booked_record(
    m: BookModel,
    b: BookingModel,
    r: MarketResolution,
    now_ms: i64,
) -> RecordModel {
    RecordModel {
        key: b.key,
        position_id: b.position_id,
        condition_id: b.condition_id,
        token_id: b.token_id,
        strategy: b.strategy,
        asset: b.asset,
        shares: b.shares,
        payout_per_share: b.payout_per_share,
        payout_usd: b.payout_usd,
        winning: b.winning,
        claim_id: match target_claim(m, b) {
            Some(id) => id,
            None => Seq::empty(),
        },
        neg_risk: r.neg_risk,
        winning_token_id: paying_token(b, r),
        outcome_index: b.outcome_index,
        outcome_count: outcomes(r.payouts@.len() as usize),
        source: r.source@,
        applied_at_ms: now_ms,
    }
}

/// What a book knows once it has committed a booking that is new to it.
pub open spec fn booked(
    m: BookModel,
    b: BookingModel,
    r: MarketResolution,
    now_ms: i64,
) -> BookModel {
    let record = booked_record(m, b, r, now_ms);
    BookModel {
        applied: m.applied.insert(b.key, record),
        claims: if target_claim(m, b) is Some {
            claims_with(m.claims, record)
        } else {
            m.claims
        },
        booked: (m.booked + 1) as u64,
        journal: noted(m.journal, LineModel::Settlement { at_ms: now_ms, record }),
        ..m
    }
}

/// What a book knows after a booking: nothing new where the key is committed already.
pub open spec fn book_step(
    m: BookModel,
    b: BookingModel,
    r: MarketResolution,
    now_ms: i64,
) -> BookModel {
    if m.applied.dom().contains(b.key) {
        m
    } else {
        booked(m, b, r, now_ms)
    }
}

/// The sums and counters that a booking asks for stay in range.
pub open spec fn book_ok(m: BookModel, b: BookingModel, r: MarketResolution, now_ms: i64) -> bool {
    m.applied.dom().contains(b.key) || {
        &&& m.booked < u64::MAX
        &&& (open_claim(m, b.condition_id) is None && b.payout_usd@ > 0 ==> redeemed_of(
            m,
            b.condition_id,
        ) < u32::MAX)
        &&& (target_claim(m, b) is Some ==> claims_with_ok(
            m.claims,
            booked_record(m, b, r, now_ms),
        ))
    }
}

/// The sum of the payouts of a list of claims.
pub open spec fn payouts_sum(s: Seq<(Seq<char>, ClaimModel)>) -> Decimal
    decreases s.len(),
{
    if s.len() == 0 {
        Decimal::spec_zero()
    } else {
        payouts_sum(s.drop_last()).spec_plus(s.last().1.payout_usd)
    }
}

/// The sum of the payouts of a list of claims stays in range.
pub open spec fn payouts_sum_ok(s: Seq<(Seq<char>, ClaimModel)>) -> bool
    decreases s.len(),
{
    s.len() == 0 || (payouts_sum_ok(s.drop_last()) && payouts_sum(s.drop_last()).plus_ok(
        s.last().1.payout_usd,
    ))
}

/// What a list of claims is worth in all, in units of `10^-28`.
pub open spec fn claims_worth(s: Seq<(Seq<char>, ClaimModel)>) -> int
    decreases s.len(),
{
    if s.len() == 0 {
        0
    } else {
        claims_worth(s.drop_last()) + s.last().1.payout_usd@
    }
}

/// What is owed to us in all, in units of `10^-28`.
pub open spec fn owed(m: BookModel) -> int {
    claims_worth(str_map::ordered(m.claims))
}

/// The sum of the payouts of a list of claims needs no rounding.
pub open spec fn payouts_sum_exact(s: Seq<(Seq<char>, ClaimModel)>) -> bool
    decreases s.len(),
{
    s.len() == 0 || (payouts_sum_exact(s.drop_last()) && payouts_sum(s.drop_last()).plus_exact(
        s.last().1.payout_usd,
    ))
}

/// What holds of the sums of all claims holds of those of the first ones.
proof fn lemma_payouts_prefix(s: Seq<(Seq<char>, ClaimModel)>, n: int)
    requires
        0 <= n <= s.len(),
    ensures
        payouts_sum_ok(s) ==> payouts_sum_ok(s.take(n)),
        payouts_sum_exact(s) ==> payouts_sum_exact(s.take(n)),
    decreases s.len(),
{
    if n == s.len() {
        assert(s.take(n) =~= s);
    } else {
        assert(s.drop_last().take(n) =~= s.take(n));
        lemma_payouts_prefix(s.drop_last(), n);
    }
}

/// The addition of a booking's payout to its claim needs no rounding.
pub open spec fn booking_exact(m: BookModel, b: BookingModel) -> bool {
    target_claim(m, b) matches Some(id) ==> (m.claims.dom().contains(id)
        ==> m.claims[id].payout_usd.plus_exact(b.payout_usd))
}

/// Putting another claim in the place of one changes the worth by the difference.
pub proof fn lemma_worth_update(
    s: Seq<(Seq<char>, ClaimModel)>,
    i: int,
    e: (Seq<char>, ClaimModel),
)
    requires
        0 <= i < s.len(),
    ensures
        claims_worth(s.update(i, e)) == claims_worth(s) - s[i].1.payout_usd@ + e.1.payout_usd@,
    decreases s.len(),
{
    let t = s.update(i, e);
    if i == s.len() - 1 {
        assert(t.drop_last() =~= s.drop_last());
    } else {
        assert(t.drop_last() =~= s.drop_last().update(i, e));
        lemma_worth_update(s.drop_last(), i, e);
    }
}

/// One more claim changes the worth by its payout.
pub proof fn lemma_worth_insert(
    s: Seq<(Seq<char>, ClaimModel)>,
    i: int,
    e: (Seq<char>, ClaimModel),
)
    requires
        0 <= i <= s.len(),
    ensures
        claims_worth(s.insert(i, e)) == claims_worth(s) + e.1.payout_usd@,
    decreases s.len(),
{
    let t = s.insert(i, e);
    if i == s.len() {
        assert(t.drop_last() =~= s);
    } else {
        assert(t.drop_last() =~= s.drop_last().insert(i, e));
        assert(t.last() == s.last());
        lemma_worth_insert(s.drop_last(), i, e);
    }
}

/// One claim less changes the worth by its payout.
pub proof fn lemma_worth_remove(s: Seq<(Seq<char>, ClaimModel)>, i: int)
    requires
        0 <= i < s.len(),
    ensures
        claims_worth(s.remove(i)) == claims_worth(s) - s[i].1.payout_usd@,
    decreases s.len(),
{
    let t = s.remove(i);
    if i == s.len() - 1 {
        assert(t =~= s.drop_last());
    } else {
        assert(t.drop_last() =~= s.drop_last().remove(i));
        assert(t.last() == s.last());
        lemma_worth_remove(s.drop_last(), i);
    }
}

/// A claim put under an id changes what is owed by the difference to what stood there.
pub proof fn lemma_worth_of_map(
    claims: Map<Seq<char>, ClaimModel>,
    id: Seq<char>,
    c: ClaimModel,
)
    requires
        claims.dom().finite(),
    ensures
        claims_worth(str_map::ordered(claims.insert(id, c))) == claims_worth(
            str_map::ordered(claims),
        ) + c.payout_usd@ - if claims.dom().contains(id) {
            claims[id].payout_usd@
        } else {
            0
        },
{
    let s = str_map::ordered(claims);
    if claims.dom().contains(id) {
        let i = str_map::lemma_ordered_insert_known(claims, id, c);
        lemma_worth_update(s, i, (id, c));
    } else {
        str_map::lemma_ordered_insert_new(claims, id, c);
        lemma_worth_insert(s, str_map::place(s, id), (id, c));
    }
}

/// How many claims of a list are, or are not, left to the operator.
pub open spec fn count_manual(s: Seq<(Seq<char>, ClaimModel)>, manual: bool) -> nat
    decreases s.len(),
{
    if s.len() == 0 {
        0
    } else {
        count_manual(s.drop_last(), manual) + if s.last().1.manual == manual {
            1nat
        } else {
            0nat
        }
    }
}

/// The newest sign of life from the venue on a market: the first dispatch or the last answer.
pub open spec fn sign_of_life(q: QueryModel) -> int {
    if q.first_sent_ms < q.next_query_ms - REQUERY_MS {
        q.next_query_ms - REQUERY_MS
    } else {
        q.first_sent_ms as int
    }
}

/// The oldest of the newest signs of life over the markets that were asked about.
pub open spec fn oldest_sign(s: Seq<(Seq<char>, QueryModel)>) -> Option<int>
    decreases s.len(),
{
    if s.len() == 0 {
        None
    } else {
        let rest = oldest_sign(s.drop_last());
        if s.last().1.first_sent_ms <= 0 {
            rest
        } else {
            match rest {
                Some(t) => if sign_of_life(s.last().1) < t {
                    Some(sign_of_life(s.last().1))
                } else {
                    Some(t)
                },
                None => Some(sign_of_life(s.last().1)),
            }
        }
    }
}

/// A position whose market can have resolved: the market is named, its end is past, and that end
/// does not lie far behind the position's entry.
pub open spec fn trackable(p: OpenPosition, now_ms: i64) -> bool {
    &&& p.condition_id@.len() > 0
    &&& p.expires_at_ms <= now_ms
    &&& p.entered_at_ms - p.expires_at_ms <= EXPIRY_TRUST_MS
}

/// The queries with one position's market tracked.
pub open spec fn watched(queries: Map<Seq<char>, QueryModel>, p: OpenPosition) -> Map<
    Seq<char>,
    QueryModel,
> {
    if queries.dom().contains(p.condition_id@) {
        let q = queries[p.condition_id@];
        if q.token_ids.contains(p.token_id@) {
            queries
        } else {
            queries.insert(
                p.condition_id@,
                QueryModel { token_ids: q.token_ids.push(p.token_id@), ..q },
            )
        }
    } else {
        queries.insert(
            p.condition_id@,
            QueryModel {
                condition_id: p.condition_id@,
                token_ids: seq![p.token_id@],
                expires_at_ms: p.expires_at_ms,
                first_sent_ms: 0,
                sent_at_ms: 0,
                next_query_ms: 0,
                answers: 0,
            },
        )
    }
}

/// The queries with the markets of all positions tracked that can have resolved.
pub open spec fn watched_all(
    queries: Map<Seq<char>, QueryModel>,
    positions: Seq<OpenPosition>,
    now_ms: i64,
) -> Map<Seq<char>, QueryModel>
    decreases positions.len(),
{
    if positions.len() == 0 {
        queries
    } else {
        let before = watched_all(queries, positions.drop_last(), now_ms);
        if trackable(positions.last(), now_ms) {
            watched(before, positions.last())
        } else {
            before
        }
    }
}

/// A query is ready for the venue: it neither waits for an answer nor for the re-query clock.
pub open spec fn query_due(q: QueryModel, now_ms: i64) -> bool {
    if q.sent_at_ms > 0 {
        now_ms - q.sent_at_ms > REQUERY_MS
    } else if q.sent_at_ms == 0 {
        now_ms >= q.next_query_ms
    } else {
        true
    }
}

/// A query handed to the venue.
pub open spec fn query_sent(q: QueryModel, now_ms: i64) -> QueryModel {
    QueryModel {
        first_sent_ms: if q.first_sent_ms == 0 {
            now_ms
        } else {
            q.first_sent_ms
        },
        sent_at_ms: now_ms,
        ..q
    }
}

/// A query after the queries that are due were handed out.
pub open spec fn query_step(q: QueryModel, now_ms: i64) -> QueryModel {
    if query_due(q, now_ms) {
        query_sent(q, now_ms)
    } else {
        q
    }
}

/// The question that a query asks.
pub open spec fn question(q: QueryModel) -> SettlementQueryModel {
    SettlementQueryModel {
        condition_id: q.condition_id,
        token_ids: q.token_ids,
        expires_at_ms: q.expires_at_ms,
    }
}

/// The questions of the queries that are due.
pub open spec fn questions_due(s: Seq<(Seq<char>, QueryModel)>, now_ms: i64) -> Seq<
    SettlementQueryModel,
>
    decreases s.len(),
{
    if s.len() == 0 {
        Seq::empty()
    } else {
        let rest = questions_due(s.drop_last(), now_ms);
        if query_due(s.last().1, now_ms) {
            rest.push(question(s.last().1))
        } else {
            rest
        }
    }
}

/// The retry delay after a number of attempts: doubling from the base to the ceiling.
pub open spec fn backoff(attempts: u32) -> int {
    if attempts <= 1 {
        5_000
    } else if attempts == 2 {
        10_000
    } else if attempts == 3 {
        20_000
    } else if attempts == 4 {
        40_000
    } else if attempts == 5 {
        80_000
    } else if attempts == 6 {
        160_000
    } else {
        300_000
    }
}

/// The retry delay after a number of attempts.
pub fn backoff_ms(attempts: u32) -> (r: i64)
    ensures
        r == backoff(attempts),
{
    let less_one: u32 = if attempts == 0 {
        0
    } else {
        attempts - 1
    };
    let shift: u32 = if less_one < 6 {
        less_one
    } else {
        6
    };
    assert(RETRY_BASE_MS << 0u32 == 5_000) by (bit_vector);
    assert(RETRY_BASE_MS << 1u32 == 10_000) by (bit_vector);
    assert(RETRY_BASE_MS << 2u32 == 20_000) by (bit_vector);
    assert(RETRY_BASE_MS << 3u32 == 40_000) by (bit_vector);
    assert(RETRY_BASE_MS << 4u32 == 80_000) by (bit_vector);
    assert(RETRY_BASE_MS << 5u32 == 160_000) by (bit_vector);
    assert(RETRY_BASE_MS << 6u32 == 320_000) by (bit_vector);
    let delay: i64 = RETRY_BASE_MS << shift;
    if delay < RETRY_MAX_MS {
        delay
    } else {
        RETRY_MAX_MS
    }
}

/// A claim is due for an attempt.
pub open spec fn claim_due(c: ClaimModel, now_ms: i64) -> bool {
    !c.manual && c.next_attempt_ms <= now_ms
}

/// A claim handed to the venue.
pub open spec fn claim_sent(c: ClaimModel, now_ms: i64) -> ClaimModel {
    ClaimModel {
        attempts: (c.attempts + 1) as u32,
        next_attempt_ms: (now_ms + backoff((c.attempts + 1) as u32)) as i64,
        ..c
    }
}

/// The counter and the clock of a claim that is due stay in range.
pub open spec fn claim_sent_ok(c: ClaimModel, now_ms: i64) -> bool {
    claim_due(c, now_ms) ==> c.attempts < u32::MAX && now_ms + backoff((c.attempts + 1) as u32)
        <= i64::MAX
}

/// A claim after the claims that are due were handed out.
pub open spec fn claim_step(c: ClaimModel, now_ms: i64) -> ClaimModel {
    if claim_due(c, now_ms) {
        claim_sent(c, now_ms)
    } else {
        c
    }
}

/// The requests of the claims that are due.
pub open spec fn requests_due(s: Seq<(Seq<char>, ClaimModel)>, now_ms: i64) -> Seq<RequestModel>
    decreases s.len(),
{
    if s.len() == 0 {
        Seq::empty()
    } else {
        let rest = requests_due(s.drop_last(), now_ms);
        if claim_due(s.last().1, now_ms) {
            rest.push(s.last().1.request())
        } else {
            rest
        }
    }
}

/// The number of the failure after so many; it stays where there is no higher one.
pub open spec fn next_failure(failures: u64) -> u64 {
    if failures < u64::MAX {
        (failures + 1) as u64
    } else {
        failures
    }
}

/// A claim whose attempt failed. A claim that is left to the operator stays so, whatever a later
/// result says.
pub open spec fn claim_failed(
    c: ClaimModel,
    message: Seq<char>,
    manual: bool,
    failed_no: u64,
    now_ms: i64,
) -> ClaimModel {
    ClaimModel {
        last_error: Some(message),
        failed_no,
        manual: c.manual || manual,
        next_attempt_ms: if c.manual || manual {
            i64::MAX
        } else {
            (now_ms + backoff(c.attempts)) as i64
        },
        ..c
    }
}

/// The claim of a list that failed last.
pub open spec fn last_failed(s: Seq<(Seq<char>, ClaimModel)>) -> Option<ClaimModel>
    decreases s.len(),
{
    if s.len() == 0 {
        None
    } else {
        let c = s.last().1;
        match last_failed(s.drop_last()) {
            Some(before) => if c.last_error is Some && before.failed_no <= c.failed_no {
                Some(c)
            } else {
                Some(before)
            },
            None => if c.last_error is Some {
                Some(c)
            } else {
                None
            },
        }
    }
}

/// A book that has noted whether the venue is silent.
pub open spec fn blind_step(m: BookModel, blind: bool) -> BookModel {
    BookModel { blind_alerted: blind, ..m }
}

/// The venue has just fallen silent.
pub open spec fn blind_edge(m: BookModel, blind: bool) -> bool {
    blind && !m.blind_alerted
}

/// A book that watches the markets of these positions.
pub open spec fn track_step(m: BookModel, positions: Seq<OpenPosition>, now_ms: i64) -> BookModel {
    BookModel { queries: watched_all(m.queries, positions, now_ms), ..m }
}

/// A book that has handed out the queries that were due.
pub open spec fn queries_step(m: BookModel, now_ms: i64) -> BookModel {
    BookModel { queries: m.queries.map_values(|q: QueryModel| query_step(q, now_ms)), ..m }
}

/// A query after an answer.
pub open spec fn query_answered(q: QueryModel, now_ms: i64) -> QueryModel {
    QueryModel {
        answers: (q.answers + 1) as u32,
        sent_at_ms: 0,
        next_query_ms: (now_ms + REQUERY_MS) as i64,
        ..q
    }
}

/// A book that has heard from the venue on a market.
pub open spec fn answer_step(m: BookModel, condition_id: Seq<char>, now_ms: i64) -> BookModel {
    BookModel {
        queries: if m.queries.dom().contains(condition_id) {
            m.queries.insert(condition_id, query_answered(m.queries[condition_id], now_ms))
        } else {
            m.queries
        },
        ..m
    }
}

/// A book that no longer watches a market.
pub open spec fn forget_step(m: BookModel, condition_id: Seq<char>) -> BookModel {
    BookModel { queries: m.queries.remove(condition_id), ..m }
}

/// A book that knows that the close of a settlement is durable.
pub open spec fn close_step(m: BookModel, key: Seq<char>, now_ms: i64) -> BookModel {
    if m.closed.contains(key) {
        m
    } else {
        BookModel {
            closed: m.closed.insert(key),
            journal: noted(m.journal, LineModel::Closed { at_ms: now_ms, key }),
            ..m
        }
    }
}

/// A book that has handed out the claims that were due.
pub open spec fn redemptions_step(m: BookModel, now_ms: i64) -> BookModel {
    BookModel { claims: m.claims.map_values(|c: ClaimModel| claim_step(c, now_ms)), ..m }
}

/// A book that knows that a redemption failed.
pub open spec fn failure_step(
    m: BookModel,
    id: Seq<char>,
    message: Seq<char>,
    manual: bool,
    now_ms: i64,
) -> BookModel {
    BookModel {
        claims: if m.claims.dom().contains(id) {
            m.claims.insert(
                id,
                claim_failed(m.claims[id], message, manual, next_failure(m.failures), now_ms),
            )
        } else {
            m.claims
        },
        failures: if m.claims.dom().contains(id) {
            next_failure(m.failures)
        } else {
            m.failures
        },
        ..m
    }
}

/// What a confirmed redemption pays.
pub open spec fn confirmed_payout(m: BookModel, id: Seq<char>) -> Option<Decimal> {
    if m.claims.dom().contains(id) {
        Some(m.claims[id].payout_usd)
    } else {
        None
    }
}

/// A book that knows that a redemption landed.
pub open spec fn confirm_step(
    m: BookModel,
    id: Seq<char>,
    tx_hash: Option<Seq<char>>,
    block_number: Option<u64>,
    now_ms: i64,
) -> BookModel {
    if m.claims.dom().contains(id) {
        BookModel {
            journal: noted(
                m.journal,
                LineModel::Redeemed { at_ms: now_ms, claim_id: id, tx_hash, block_number },
            ),
            ..redeemed_claim(m, id)
        }
    } else {
        m
    }
}

/// The settlement book: what was settled, what is still owed to us, and what has been asked of
/// the venue.
pub struct SettlementBook {
    applied: StrMap<SettlementRecord>,
    closed: StrSet,
    claims: StrMap<RedemptionClaim>,
    redeemed: StrSet,
    redeemed_per_condition: StrMap<u32>,
    queries: StrMap<QueryState>,
    booked: u64,
    failures: u64,
    blind_alerted: bool,
    journal: Option<Vec<JournalLine>>,
}

impl View for SettlementBook {
    type V = BookModel;

    closed spec fn view(&self) -> BookModel {
        BookModel {
            applied: self.applied@,
            closed: self.closed@,
            claims: self.claims@,
            redeemed: self.redeemed@,
            redeemed_per_condition: self.redeemed_per_condition@,
            queries: self.queries@,
            booked: self.booked,
            failures: self.failures,
            blind_alerted: self.blind_alerted,
            journal: match self.journal {
                Some(lines) => Some(lines_model(lines@)),
                None => None,
            },
        }
    }
}

/// What holds of every book: entries stand under their own ids, failures are numbered as they
/// come, and the maps are finite.
pub open spec fn book_inv(m: BookModel) -> bool {
    &&& m.applied.dom().finite()
    &&& m.closed.finite()
    &&& m.claims.dom().finite()
    &&& m.redeemed.finite()
    &&& m.redeemed_per_condition.dom().finite()
    &&& m.queries.dom().finite()
    &&& forall|k: Seq<char>| #[trigger] m.applied.dom().contains(k) ==> m.applied[k].key == k
    &&& forall|k: Seq<char>| #[trigger] m.claims.dom().contains(k) ==> m.claims[k].id == k
        && m.claims[k].failed_no <= m.failures
    &&& forall|k: Seq<char>| #[trigger]
        m.queries.dom().contains(k) ==> m.queries[k].condition_id == k && m.queries[k].next_query_ms
            >= i64::MIN + REQUERY_MS
}

/// A list of `n` share amounts: the shares at their outcome, none elsewhere.
fn park(n: usize, outcome: Option<usize>, shares: Decimal) -> (r: Vec<Decimal>)
    ensures
        r@ == parked(n, outcome, shares),
{
    let mut v: Vec<Decimal> = Vec::new();
    let mut i: usize = 0;
    while i < n
        invariant
            i <= n,
            v@.len() == i,
            forall|j: int| 0 <= j < i ==> v@[j] == parked(n, outcome, shares)[j],
        decreases n - i,
    {
        let here = match outcome {
            Some(k) => k == i,
            None => false,
        };
        if here {
            v.push(shares);
        } else {
            v.push(Decimal::zero());
        }
        i = i + 1;
    }
    assert(v@ =~= parked(n, outcome, shares));
    v
}

/// The outcome shares that a settlement record describes.
fn settled_shares(record: &SettlementRecord) -> (r: Vec<Decimal>)
    ensures
        r@ == parked(outcomes(record.outcome_count), record.outcome_index, record.shares),
{
    let n: usize = if record.outcome_count < 2 {
        2
    } else {
        record.outcome_count
    };
    park(n, record.outcome_index, record.shares)
}

/// The outcome shares that a booking describes.
fn outcome_shares_for(resolution: &MarketResolution, booking: &SettlementBooking) -> (r: Vec<
    Decimal,
>)
    ensures
        r@ == parked(
            outcomes(resolution.payouts@.len() as usize),
            booking.outcome_index,
            booking.shares,
        ),
{
    let n: usize = if resolution.payouts.len() < 2 {
        2
    } else {
        resolution.payouts.len()
    };
    park(n, booking.outcome_index, booking.shares)
}

/// Adds one settled position to a claim.
fn grow_claim(
    claim: &mut RedemptionClaim,
    shares: &Vec<Decimal>,
    payout_usd: Decimal,
    position_id: &String,
    neg_risk: bool,
    winning_token_id: &String,
)
    requires
        old(claim).payout_usd.plus_ok(payout_usd),
        forall|i: int|
            0 <= i < shares@.len() && i < old(claim).outcome_shares@.len() ==> (#[trigger] shares@[i])@
                == 0 || old(claim).outcome_shares@[i].plus_ok(shares@[i]),
    ensures
        final(claim)@ == grown_claim(
            old(claim)@,
            shares@,
            payout_usd,
            position_id@,
            neg_risk,
            winning_token_id@,
        ),
        old(claim).payout_usd.plus_exact(payout_usd) ==> final(claim).payout_usd@ == old(
            claim,
        ).payout_usd@ + payout_usd@,
{
    let ghost before = claim.outcome_shares@;
    let ghost wide = widened(before, shares@.len());
    while claim.outcome_shares.len() < shares.len()
        invariant
            before == old(claim).outcome_shares@,
            wide == widened(before, shares@.len()),
            before.len() <= claim.outcome_shares@.len() <= wide.len(),
            claim.outcome_shares@ == wide.take(claim.outcome_shares@.len() as int),
            *claim == (RedemptionClaim { outcome_shares: claim.outcome_shares, ..*old(claim) }),
        decreases shares@.len() - claim.outcome_shares@.len(),
    {
        let ghost n = claim.outcome_shares@.len() as int;
        claim.outcome_shares.push(Decimal::zero());
        assert(claim.outcome_shares@ =~= wide.take(n + 1));
    }
    assert(claim.outcome_shares@ =~= wide);
    let mut i: usize = 0;
    while i < shares.len()
        invariant
            before == old(claim).outcome_shares@,
            wide == widened(before, shares@.len()),
            i <= shares@.len() <= wide.len(),
            claim.outcome_shares@.len() == wide.len(),
            forall|j: int| 0 <= j < i ==> claim.outcome_shares@[j] == summed(wide, shares@)[j],
            forall|j: int| i <= j < wide.len() ==> claim.outcome_shares@[j] == wide[j],
            forall|j: int|
                0 <= j < shares@.len() && j < before.len() ==> (#[trigger] shares@[j])@ == 0
                    || before[j].plus_ok(shares@[j]),
            *claim == (RedemptionClaim { outcome_shares: claim.outcome_shares, ..*old(claim) }),
        decreases shares@.len() - i,
    {
        let slot = claim.outcome_shares[i];
        let s = shares[i];
        proof {
            use_type_invariant(&slot);
            use_type_invariant(&s);
            decimal::lemma_in_range(slot);
            decimal::lemma_in_range(s);
            decimal::lemma_zero();
            assert(slot == wide[i as int]);
            assert(s == shares@[i as int]);
        }
        claim.outcome_shares.set(i, slot.plus(s));
        i = i + 1;
    }
    assert(claim.outcome_shares@ =~= summed(wide, shares@));
    claim.payout_usd = claim.payout_usd.plus(payout_usd);
    claim.position_ids.push(position_id.clone());
    assert(model::texts(claim.position_ids@) =~= model::texts(old(claim).position_ids@).push(
        position_id@,
    ));
    claim.neg_risk = neg_risk;
    if claim.winning_token_id.as_str().is_empty() {
        claim.winning_token_id = winning_token_id.clone();
    }
}

impl Clone for RedemptionClaim {
    fn clone(&self) -> (r: Self)
        ensures
            r@ == self@,
    {
        RedemptionClaim {
            id: self.id.clone(),
            condition_id: self.condition_id.clone(),
            neg_risk: self.neg_risk,
            winning_token_id: self.winning_token_id.clone(),
            outcome_shares: model::clone_decimals(&self.outcome_shares),
            payout_usd: self.payout_usd,
            position_ids: model::clone_texts(&self.position_ids),
            created_at_ms: self.created_at_ms,
            attempts: self.attempts,
            next_attempt_ms: self.next_attempt_ms,
            manual: self.manual,
            last_error: self.last_error.clone(),
            failed_no: self.failed_no,
            tx_hash: self.tx_hash.clone(),
            block_number: self.block_number,
        }
    }
}

impl Clone for QueryState {
    fn clone(&self) -> (r: Self)
        ensures
            r@ == self@,
    {
        QueryState {
            condition_id: self.condition_id.clone(),
            token_ids: model::clone_texts(&self.token_ids),
            expires_at_ms: self.expires_at_ms,
            first_sent_ms: self.first_sent_ms,
            sent_at_ms: self.sent_at_ms,
            next_query_ms: self.next_query_ms,
            answers: self.answers,
        }
    }
}

/// A book in one line.
pub open spec fn summary_text(m: BookModel) -> Seq<char> {
    "settled="@ + text::nat_text(m.applied.len()) + " pending_redeem="@ + text::nat_text(
        m.claims.len(),
    ) + " receivable="@ + decimal::text_of(payouts_sum(str_map::ordered(m.claims))) + " manual="@
        + text::nat_text(count_manual(str_map::ordered(m.claims), true))
}

impl SettlementBook {
    /// What holds of every book holds.
    pub open spec fn wf(self) -> bool {
        book_inv(self@)
    }

    /// Opens the book. Where it keeps a journal, the lines of an earlier book's journal come
    /// first.
    pub fn new(journal: Option<Vec<JournalLine>>) -> (r: Self)
        requires
            journal matches Some(lines) ==> replay_all_ok(empty_book(true), lines_model(lines@)),
        ensures
            r.wf(),
            r@ == match journal {
                Some(lines) => replayed_all(empty_book(true), lines_model(lines@)),
                None => empty_book(false),
            },
    {
        let journaled = journal.is_some();
        let mut book = SettlementBook {
            applied: StrMap::new(),
            closed: StrSet::new(),
            claims: StrMap::new(),
            redeemed: StrSet::new(),
            redeemed_per_condition: StrMap::new(),
            queries: StrMap::new(),
            booked: 0,
            failures: 0,
            blind_alerted: false,
            journal: if journaled {
                Some(Vec::new())
            } else {
                None
            },
        };
        proof {
            if journaled {
                assert(lines_model(book.journal->0@) =~= Seq::empty());
            }
            assert(book@ =~= empty_book(journaled));
        }
        match journal {
            None => {},
            Some(lines) => {
                let ghost all = lines_model(lines@);
                let mut i: usize = 0;
                while i < lines.len()
                    invariant
                        i <= lines@.len(),
                        all == lines_model(lines@),
                        book.wf(),
                        replay_all_ok(empty_book(true), all),
                        book@ == replayed_all(empty_book(true), all.take(i as int)),
                    decreases lines@.len() - i,
                {
                    proof {
                        assert(all[i as int] == lines@[i as int]@);
                        assert(all.take(i + 1).drop_last() =~= all.take(i as int));
                        assert(all.take(i + 1).last() == all[i as int]);
                        lemma_replay_prefix(empty_book(true), all, i + 1);
                    }
                    book.replay(&lines[i]);
                    i = i + 1;
                }
                assert(all.take(i as int) =~= all);
            },
        }
        book
    }

    fn replay(&mut self, line: &JournalLine)
        requires
            old(self).wf(),
            replay_ok(old(self)@, line@),
        ensures
            final(self).wf(),
            final(self)@ == replayed(old(self)@, line@),
    {
        match line {
            JournalLine::Settlement { at_ms: _, record } => {
                // A worthless leg of a market that never got a paying one has no claim:
                // replaying it must not invent one.
                if !record.claim_id.as_str().is_empty() {
                    let shares = settled_shares(record);
                    proof {
                        decimal::lemma_zero();
                    }
                    self.accumulate_claim(
                        &record.claim_id,
                        &record.condition_id,
                        &record.position_id,
                        record.payout_usd,
                        record.neg_risk,
                        &shares,
                        &record.winning_token_id,
                        record.applied_at_ms,
                    );
                }
                self.applied.insert(record.key.clone(), (**record).clone());
            },
            JournalLine::Closed { at_ms: _, key } => {
                self.closed.insert(key.clone());
            },
            JournalLine::Redeemed { at_ms: _, claim_id, tx_hash: _, block_number: _ } => {
                self.retire_claim(claim_id);
            },
        }
        assert(self@ =~= replayed(old(self)@, line@));
    }

    /// Takes a claim out of the receivable for good.
    fn retire_claim(&mut self, id: &String) -> (r: Option<RedemptionClaim>)
        requires
            old(self).wf(),
            old(self)@.claims.dom().contains(id@) ==> redeemed_of(
                old(self)@,
                old(self)@.claims[id@].condition_id,
            ) < u32::MAX,
        ensures
            final(self).wf(),
            final(self)@ == redeemed_claim(old(self)@, id@),
            r is Some <==> old(self)@.claims.dom().contains(id@),
            r matches Some(c) ==> c@ == old(self)@.claims[id@],
    {
        let taken = self.claims.remove(id.as_str());
        match &taken {
            Some(c) => {
                let used: u32 = match self.redeemed_per_condition.get(c.condition_id.as_str()) {
                    Some(n) => *n,
                    None => 0,
                };
                self.redeemed_per_condition.insert(c.condition_id.clone(), used + 1);
            },
            None => {},
        }
        self.redeemed.insert(id.clone());
        assert(self@ =~= redeemed_claim(old(self)@, id@));
        taken
    }

    /// Adds one settled position to its market's claim, which is opened where there is none.
    fn accumulate_claim(
        &mut self,
        claim_id: &String,
        condition_id: &String,
        position_id: &String,
        payout_usd: Decimal,
        neg_risk: bool,
        outcome_shares: &Vec<Decimal>,
        winning_token_id: &String,
        now_ms: i64,
    )
        requires
            old(self).wf(),
            old(self)@.claims.dom().contains(claim_id@) ==> {
                let c = old(self)@.claims[claim_id@];
                &&& c.payout_usd.plus_ok(payout_usd)
                &&& forall|i: int|
                    0 <= i < outcome_shares@.len() && i < c.outcome_shares.len() ==> (
                    #[trigger] outcome_shares@[i])@ == 0 || c.outcome_shares[i].plus_ok(
                        outcome_shares@[i],
                    )
            },
        ensures
            final(self).wf(),
            final(self)@ == (BookModel {
                claims: old(self)@.claims.insert(
                    claim_id@,
                    grown_claim(
                        claim_or_new(
                            old(self)@.claims,
                            claim_id@,
                            condition_id@,
                            neg_risk,
                            winning_token_id@,
                            now_ms,
                        ),
                        outcome_shares@,
                        payout_usd,
                        position_id@,
                        neg_risk,
                        winning_token_id@,
                    ),
                ),
                ..old(self)@
            }),
            (old(self)@.claims.dom().contains(claim_id@)
                ==> old(self)@.claims[claim_id@].payout_usd.plus_exact(payout_usd)) ==> owed(
                final(self)@,
            ) == owed(old(self)@) + payout_usd@,
    {
        let taken = self.claims.remove(claim_id.as_str());
        let mut claim = match taken {
            Some(c) => c,
            None => {
                let c = RedemptionClaim {
                    id: claim_id.clone(),
                    condition_id: condition_id.clone(),
                    neg_risk,
                    winning_token_id: winning_token_id.clone(),
                    outcome_shares: Vec::new(),
                    payout_usd: Decimal::zero(),
                    position_ids: Vec::new(),
                    created_at_ms: now_ms,
                    attempts: 0,
                    next_attempt_ms: 0,
                    manual: false,
                    last_error: None,
                    failed_no: 0,
                    tx_hash: None,
                    block_number: None,
                };
                proof {
                    assert(model::texts(c.position_ids@) =~= Seq::empty());
                    assert(c.outcome_shares@ =~= Seq::empty());
                    use_type_invariant(&payout_usd);
                    decimal::lemma_in_range(payout_usd);
                    decimal::lemma_zero();
                    decimal::lemma_zero_plus_exact(payout_usd);
                }
                c
            },
        };
        grow_claim(
            &mut claim,
            outcome_shares,
            payout_usd,
            position_id,
            neg_risk,
            winning_token_id,
        );
        self.claims.insert(claim_id.clone(), claim);
        proof {
            assert(self@.claims =~= old(self)@.claims.insert(claim_id@, claim@));
            lemma_worth_of_map(old(self)@.claims, claim_id@, claim@);
        }
    }

    /// Whether a settlement is committed under this key.
    pub fn is_applied(&self, key: &str) -> (r: bool)
        requires
            self.wf(),
        ensures
            r == self@.applied.dom().contains(key@),
    {
        self.applied.contains_key(key)
    }

    /// How many settlements are committed.
    pub fn applied_count(&self) -> (r: usize)
        requires
            self.wf(),
        ensures
            r == self@.applied.len(),
    {
        self.applied.len()
    }

    /// How many settlements were booked in this session.
    pub fn booked_this_session(&self) -> (r: u64)
        ensures
            r == self@.booked,
    {
        self.booked
    }

    /// The collateral earned but not yet in the wallet.
    pub fn receivable_usd(&self) -> (r: Decimal)
        requires
            self.wf(),
            payouts_sum_ok(str_map::ordered(self@.claims)),
        ensures
            r == payouts_sum(str_map::ordered(self@.claims)),
            payouts_sum_exact(str_map::ordered(self@.claims)) ==> r@ == owed(self@),
    {
        let ghost s = str_map::ordered(self@.claims);
        let n: usize = self.claims.len();
        let mut sum = Decimal::zero();
        let mut i: usize = 0;
        while i < n
            invariant
                self.wf(),
                s == str_map::ordered(self@.claims),
                n == s.len(),
                i <= n,
                payouts_sum_ok(s),
                sum == payouts_sum(s.take(i as int)),
                payouts_sum_exact(s) ==> sum@ == claims_worth(s.take(i as int)),
            decreases n - i,
        {
            let c = self.claims.value_at(i);
            proof {
                assert(c@ == s[i as int].1);
                assert(s.take(i + 1).drop_last() =~= s.take(i as int));
                assert(s.take(i + 1).last() == s[i as int]);
                lemma_payouts_prefix(s, i + 1);
            }
            sum = sum.plus(c.payout_usd);
            i = i + 1;
        }
        assert(s.take(i as int) =~= s);
        sum
    }

    /// The claims not redeemed yet, in the order of their ids.
    pub fn claims(&self) -> (r: Vec<&RedemptionClaim>)
        requires
            self.wf(),
        ensures
            r@.len() == str_map::ordered(self@.claims).len(),
            forall|i: int|
                0 <= i < r@.len() ==> (#[trigger] r@[i])@ == str_map::ordered(self@.claims)[i].1,
    {
        let n: usize = self.claims.len();
        let mut out: Vec<&RedemptionClaim> = Vec::new();
        let mut i: usize = 0;
        while i < n
            invariant
                self.wf(),
                n == str_map::ordered(self@.claims).len(),
                i <= n,
                out@.len() == i,
                forall|j: int|
                    0 <= j < i ==> (#[trigger] out@[j])@ == str_map::ordered(self@.claims)[j].1,
            decreases n - i,
        {
            out.push(self.claims.value_at(i));
            i = i + 1;
        }
        out
    }

    /// The claim under an id.
    pub fn claim(&self, id: &str) -> (r: Option<&RedemptionClaim>)
        requires
            self.wf(),
        ensures
            r is Some <==> self@.claims.dom().contains(id@),
            r matches Some(c) ==> c@ == self@.claims[id@],
    {
        self.claims.get(id)
    }

    /// How many claims are not redeemed yet.
    pub fn pending_claim_count(&self) -> (r: usize)
        requires
            self.wf(),
        ensures
            r == self@.claims.len(),
    {
        self.claims.len()
    }

    fn count_claims(&self, manual: bool) -> (r: usize)
        requires
            self.wf(),
        ensures
            r == count_manual(str_map::ordered(self@.claims), manual),
    {
        let ghost s = str_map::ordered(self@.claims);
        let n: usize = self.claims.len();
        let mut count: usize = 0;
        let mut i: usize = 0;
        while i < n
            invariant
                self.wf(),
                s == str_map::ordered(self@.claims),
                n == s.len(),
                i <= n,
                count <= i,
                count == count_manual(s.take(i as int), manual),
            decreases n - i,
        {
            let c = self.claims.value_at(i);
            assert(c@ == s[i as int].1);
            assert(s.take(i + 1).drop_last() =~= s.take(i as int));
            if c.manual == manual {
                count = count + 1;
            }
            i = i + 1;
        }
        assert(s.take(i as int) =~= s);
        count
    }

    /// How many claims still have an automatic attempt coming.
    pub fn retryable_claim_count(&self) -> (r: usize)
        requires
            self.wf(),
        ensures
            r == count_manual(str_map::ordered(self@.claims), false),
    {
        self.count_claims(false)
    }

    /// How many claims are left to the operator.
    pub fn manual_claim_count(&self) -> (r: usize)
        requires
            self.wf(),
        ensures
            r == count_manual(str_map::ordered(self@.claims), true),
    {
        self.count_claims(true)
    }

    /// Since when the venue has been silent: the newest sign of life on some market that was
    /// asked about is older than [`BLIND_AFTER_MS`]. Nothing while the venue is healthy.
    pub fn blind_since_ms(&self, now_ms: i64) -> (r: Option<i64>)
        requires
            self.wf(),
        ensures
            match oldest_sign(str_map::ordered(self@.queries)) {
                Some(t) => if now_ms - t > BLIND_AFTER_MS {
                    r matches Some(x) && x == t
                } else {
                    r is None
                },
                None => r is None,
            },
    {
        let ghost s = str_map::ordered(self@.queries);
        let n: usize = self.queries.len();
        let mut oldest: Option<i64> = None;
        let mut i: usize = 0;
        while i < n
            invariant
                self.wf(),
                s == str_map::ordered(self@.queries),
                n == s.len(),
                i <= n,
                match oldest_sign(s.take(i as int)) {
                    Some(t) => oldest matches Some(x) && x == t,
                    None => oldest is None,
                },
            decreases n - i,
        {
            let q = self.queries.value_at(i);
            assert(q@ == s[i as int].1);
            assert(s.take(i + 1).drop_last() =~= s.take(i as int));
            assert(s.take(i + 1).last() == s[i as int]);
            if q.first_sent_ms > 0 {
                let answered: i64 = q.next_query_ms - REQUERY_MS;
                let sign: i64 = if q.first_sent_ms < answered {
                    answered
                } else {
                    q.first_sent_ms
                };
                oldest = match oldest {
                    Some(t) => if sign < t {
                        Some(sign)
                    } else {
                        Some(t)
                    },
                    None => Some(sign),
                };
            }
            i = i + 1;
        }
        assert(s.take(i as int) =~= s);
        match oldest {
            Some(t) => if now_ms as i128 - t as i128 > BLIND_AFTER_MS as i128 {
                Some(t)
            } else {
                None
            },
            None => None,
        }
    }

    /// Notes whether the venue is silent; whether it has just fallen silent.
    pub fn note_blind_state(&mut self, blind: bool) -> (r: bool)
        requires
            old(self).wf(),
        ensures
            final(self).wf(),
            final(self)@ == blind_step(old(self)@, blind),
            r == blind_edge(old(self)@, blind),
    {
        let edge = blind && !self.blind_alerted;
        self.blind_alerted = blind;
        edge
    }

    /// Marks the markets that a verdict is needed for; how many of them are new. A market that is
    /// already marked keeps its query clock.
    pub fn track_markets(&mut self, positions: &Vec<OpenPosition>, now_ms: i64) -> (r: usize)
        requires
            old(self).wf(),
        ensures
            final(self).wf(),
            final(self)@ == track_step(old(self)@, positions@, now_ms),
            r == final(self)@.queries.len() - old(self)@.queries.len(),
    {
        let ghost all = positions@;
        let mut added: usize = 0;
        let mut i: usize = 0;
        while i < positions.len()
            invariant
                all == positions@,
                i <= all.len(),
                added <= i,
                self.wf(),
                self@ == (BookModel {
                    queries: watched_all(old(self)@.queries, all.take(i as int), now_ms),
                    ..old(self)@
                }),
                added == self@.queries.len() - old(self)@.queries.len(),
            decreases all.len() - i,
        {
            let p = &positions[i];
            let ghost before = self@.queries;
            proof {
                assert(all.take(i + 1).drop_last() =~= all.take(i as int));
                assert(all.take(i + 1).last() == *p);
            }
            let past = p.expires_at_ms <= now_ms;
            let trusted = p.entered_at_ms as i128 - p.expires_at_ms as i128
                <= EXPIRY_TRUST_MS as i128;
            if !p.condition_id.as_str().is_empty() && past && trusted {
                match self.queries.remove(p.condition_id.as_str()) {
                    Some(mut q) => {
                        let known = text::is_listed(&q.token_ids, p.token_id.as_str());
                        if !known {
                            let ghost held = q.token_ids@;
                            q.token_ids.push(p.token_id.clone());
                            assert(model::texts(q.token_ids@) =~= model::texts(held).push(
                                p.token_id@,
                            ));
                        }
                        self.queries.insert(p.condition_id.clone(), q);
                        assert(self@.queries =~= watched(before, *p));
                        assert(self@.queries.dom() =~= before.dom());
                    },
                    None => {
                        assert(before.remove(p.condition_id@) =~= before);
                        let mut token_ids: Vec<String> = Vec::new();
                        token_ids.push(p.token_id.clone());
                        assert(model::texts(token_ids@) =~= seq![p.token_id@]);
                        self.queries.insert(
                            p.condition_id.clone(),
                            QueryState {
                                condition_id: p.condition_id.clone(),
                                token_ids,
                                expires_at_ms: p.expires_at_ms,
                                first_sent_ms: 0,
                                sent_at_ms: 0,
                                next_query_ms: 0,
                                answers: 0,
                            },
                        );
                        added = added + 1;
                        assert(self@.queries =~= watched(before, *p));
                    },
                }
            }
            i = i + 1;
        }
        assert(all.take(i as int) =~= all);
        added
    }

    /// The queries to hand to the venue. Handing one out stamps its clock, so that an unanswered
    /// query is asked again at most once per [`REQUERY_MS`].
    pub fn take_queries(&mut self, now_ms: i64) -> (r: Vec<SettlementQuery>)
        requires
            old(self).wf(),
        ensures
            final(self).wf(),
            final(self)@ == queries_step(old(self)@, now_ms),
            r@.map_values(|q: SettlementQuery| q@) == questions_due(
                str_map::ordered(old(self)@.queries),
                now_ms,
            ),
    {
        let ghost s = str_map::ordered(self@.queries);
        let ghost f = |q: QueryModel| query_step(q, now_ms);
        let ghost g = |e: (Seq<char>, QueryModel)| (e.0, f(e.1));
        let n: usize = self.queries.len();
        let mut out: Vec<SettlementQuery> = Vec::new();
        let mut i: usize = 0;
        proof {
            assert(out@.map_values(|q: SettlementQuery| q@) =~= Seq::empty());
        }
        while i < n
            invariant
                n == s.len(),
                i <= n,
                self@ == (BookModel { queries: self@.queries, ..old(self)@ }),
                f == |q: QueryModel| query_step(q, now_ms),
                g == |e: (Seq<char>, QueryModel)| (e.0, f(e.1)),
                str_map::ordered(self@.queries).len() == n,
                forall|j: int| 0 <= j < i ==> str_map::ordered(self@.queries)[j] == g(s[j]),
                forall|j: int| i <= j < n ==> str_map::ordered(self@.queries)[j] == s[j],
                out@.map_values(|q: SettlementQuery| q@) == questions_due(
                    s.take(i as int),
                    now_ms,
                ),
            decreases n - i,
        {
            let q = self.queries.value_at(i);
            proof {
                assert(q@ == s[i as int].1);
                assert(s.take(i + 1).drop_last() =~= s.take(i as int));
                assert(s.take(i + 1).last() == s[i as int]);
            }
            let waiting = q.sent_at_ms > 0 && now_ms as i128 - q.sent_at_ms as i128
                <= REQUERY_MS as i128;
            if !(waiting || (q.sent_at_ms == 0 && now_ms < q.next_query_ms)) {
                let mut sent = q.clone();
                if sent.first_sent_ms == 0 {
                    sent.first_sent_ms = now_ms;
                }
                sent.sent_at_ms = now_ms;
                let ask = SettlementQuery {
                    condition_id: q.condition_id.clone(),
                    token_ids: model::clone_texts(&q.token_ids),
                    expires_at_ms: q.expires_at_ms,
                };
                let ghost asked = out@;
                out.push(ask);
                assert(out@.map_values(|q: SettlementQuery| q@) =~= asked.map_values(
                    |q: SettlementQuery| q@,
                ).push(ask@));
                self.queries.set_value_at(i, sent);
            }
            i = i + 1;
        }
        proof {
            assert(s.take(i as int) =~= s);
            assert(str_map::ordered(self@.queries) =~= s.map_values(g));
            str_map::lemma_entries_map_values(s, f);
        }
        let _n: usize = self.queries.len();
        proof {
            str_map::lemma_has_order(old(self)@.queries);
            assert(self@.queries == old(self)@.queries.map_values(f));
            assert(self@.queries.dom() =~= old(self)@.queries.dom());
        }
        out
    }

    /// Notes that the venue answered on a market, resolved or not.
    pub fn note_answer(&mut self, condition_id: &str, _resolved: bool, now_ms: i64)
        requires
            old(self).wf(),
            old(self)@.queries.dom().contains(condition_id@) ==> old(
                self,
            )@.queries[condition_id@].answers < u32::MAX && now_ms + REQUERY_MS <= i64::MAX,
        ensures
            final(self).wf(),
            final(self)@ == answer_step(old(self)@, condition_id@, now_ms),
    {
        let ghost before = self@.queries;
        match self.queries.remove(condition_id) {
            Some(mut q) => {
                q.answers = q.answers + 1;
                q.sent_at_ms = 0;
                q.next_query_ms = now_ms + REQUERY_MS;
                self.queries.insert(condition_id.to_owned(), q);
                assert(self@.queries =~= before.insert(condition_id@, q@));
            },
            None => {
                assert(self@.queries =~= before);
            },
        }
    }

    /// Drops the query on a market with nothing left to settle.
    pub fn forget_market(&mut self, condition_id: &str)
        requires
            old(self).wf(),
        ensures
            final(self).wf(),
            final(self)@ == forget_step(old(self)@, condition_id@),
    {
        let _ = self.queries.remove(condition_id);
    }

    /// How many markets a verdict is awaited for.
    pub fn tracked_markets(&self) -> (r: usize)
        requires
            self.wf(),
        ensures
            r == self@.queries.len(),
    {
        self.queries.len()
    }

    /// The markets that a verdict is awaited for, in the order of their ids.
    pub fn tracked_condition_ids(&self) -> (r: Vec<String>)
        requires
            self.wf(),
        ensures
            model::texts(r@) == str_map::ordered(self@.queries).map_values(
                |e: (Seq<char>, QueryModel)| e.0,
            ),
    {
        let ghost s = str_map::ordered(self@.queries);
        let n: usize = self.queries.len();
        let mut out: Vec<String> = Vec::new();
        let mut i: usize = 0;
        while i < n
            invariant
                self.wf(),
                s == str_map::ordered(self@.queries),
                n == s.len(),
                i <= n,
                out@.len() == i,
                forall|j: int| 0 <= j < i ==> (#[trigger] out@[j])@ == s[j].0,
            decreases n - i,
        {
            out.push(self.queries.key_at(i).clone());
            i = i + 1;
        }
        assert(model::texts(out@) =~= s.map_values(|e: (Seq<char>, QueryModel)| e.0));
        out
    }

    /// How many claims were redeemed.
    pub fn redeemed_count(&self) -> (r: usize)
        requires
            self.wf(),
        ensures
            r == self@.redeemed.len(),
    {
        self.redeemed.len()
    }

    /// The newest redemption problem: the claim, the message, and whether the claim is left to the
    /// operator. Nothing where no claim has a problem.
    pub fn last_error(&self) -> (r: Option<(&str, &str, bool)>)
        requires
            self.wf(),
        ensures
            match last_failed(str_map::ordered(self@.claims)) {
                Some(c) => r matches Some(e) && e.0@ == c.id && Some(e.1@) == c.last_error && e.2
                    == c.manual,
                None => r is None,
            },
    {
        let ghost s = str_map::ordered(self@.claims);
        let n: usize = self.claims.len();
        let mut newest: Option<&RedemptionClaim> = None;
        let mut i: usize = 0;
        while i < n
            invariant
                self.wf(),
                s == str_map::ordered(self@.claims),
                n == s.len(),
                i <= n,
                match last_failed(s.take(i as int)) {
                    Some(c) => newest matches Some(x) && x@ == c && c.last_error is Some,
                    None => newest is None,
                },
            decreases n - i,
        {
            let c = self.claims.value_at(i);
            assert(c@ == s[i as int].1);
            assert(s.take(i + 1).drop_last() =~= s.take(i as int));
            assert(s.take(i + 1).last() == s[i as int]);
            if c.last_error.is_some() {
                newest = match newest {
                    Some(before) => if before.failed_no <= c.failed_no {
                        Some(c)
                    } else {
                        Some(before)
                    },
                    None => Some(c),
                };
            }
            i = i + 1;
        }
        assert(s.take(i as int) =~= s);
        match newest {
            Some(c) => match &c.last_error {
                Some(e) => Some((c.id.as_str(), e.as_str(), c.manual)),
                None => None,
            },
            None => None,
        }
    }

    /// Commits one settlement. Where the key is committed already, nothing is booked, and the
    /// caller must not close the position a second time.
    ///
    /// The claim belongs to the market: a leg that resolved worthless rides along while the
    /// market has a paying leg. A market whose legs are all worthless gets no claim.
    pub fn book(
        &mut self,
        booking: &SettlementBooking,
        resolution: &MarketResolution,
        now_ms: i64,
    ) -> (r: Option<SettlementBooking>)
        requires
            old(self).wf(),
            book_ok(old(self)@, booking@, *resolution, now_ms),
        ensures
            final(self).wf(),
            final(self)@ == book_step(old(self)@, booking@, *resolution, now_ms),
            if old(self)@.applied.dom().contains(booking.key@) {
                r is None
            } else {
                r matches Some(b) && b@ == (BookingModel {
                    claim_id: booked_record(
                        old(self)@,
                        booking@,
                        *resolution,
                        now_ms,
                    ).claim_id,
                    ..booking@
                })
            },
            !old(self)@.applied.dom().contains(booking.key@) && booking.payout_usd@ >= 0
                && booking_exact(old(self)@, booking@) ==> owed(final(self)@) == owed(old(self)@)
                + booking.payout_usd@,
    {
        if self.is_applied(booking.key.as_str()) {
            return None;
        }
        let ghost m = self@;
        let open_claim = self.open_claim_id(booking.condition_id.as_str());
        let claim_id: Option<String> = match open_claim {
            Some(id) => Some(id),
            None => if booking.payout_usd.is_positive() {
                Some(self.claim_id_for(&booking.condition_id))
            } else {
                None
            },
        };
        let winning_token_id = match &resolution.winning_token {
            Some(t) => t.clone(),
            None => booking.token_id.clone(),
        };
        let ghost record_model = booked_record(m, booking@, *resolution, now_ms);
        let outcome_shares = outcome_shares_for(resolution, booking);
        match &claim_id {
            Some(id) => {
                proof {
                    let shares = parked(
                        outcomes(record_model.outcome_count),
                        record_model.outcome_index,
                        record_model.shares,
                    );
                    decimal::lemma_zero();
                    assert(outcomes(record_model.outcome_count) == record_model.outcome_count);
                    assert(outcome_shares@ == shares);
                }
                self.accumulate_claim(
                    id,
                    &booking.condition_id,
                    &booking.position_id,
                    booking.payout_usd,
                    resolution.neg_risk,
                    &outcome_shares,
                    &winning_token_id,
                    now_ms,
                );
            },
            None => {},
        }
        let count: usize = if resolution.payouts.len() < 2 {
            2
        } else {
            resolution.payouts.len()
        };
        let landed = match claim_id {
            Some(id) => id,
            None => String::new(),
        };
        let record = SettlementRecord {
            key: booking.key.clone(),
            position_id: booking.position_id.clone(),
            condition_id: booking.condition_id.clone(),
            token_id: booking.token_id.clone(),
            strategy: booking.strategy.clone(),
            asset: booking.asset.clone(),
            shares: booking.shares,
            payout_per_share: booking.payout_per_share,
            payout_usd: booking.payout_usd,
            winning: booking.winning,
            claim_id: landed.clone(),
            neg_risk: resolution.neg_risk,
            winning_token_id,
            outcome_index: booking.outcome_index,
            outcome_count: count,
            source: resolution.source.clone(),
            applied_at_ms: now_ms,
        };
        assert(record@ == record_model);
        self.applied.insert(record.key.clone(), record.clone());
        self.booked = self.booked + 1;
        self.note(JournalLine::Settlement { at_ms: now_ms, record: Box::new(record) });
        assert(self@ =~= booked(m, booking@, *resolution, now_ms));
        Some(
            SettlementBooking {
                key: booking.key.clone(),
                position_id: booking.position_id.clone(),
                condition_id: booking.condition_id.clone(),
                token_id: booking.token_id.clone(),
                strategy: booking.strategy.clone(),
                asset: booking.asset.clone(),
                shares: booking.shares,
                payout_per_share: booking.payout_per_share,
                payout_usd: booking.payout_usd,
                winning: booking.winning,
                outcome_index: booking.outcome_index,
                claim_id: landed,
            },
        )
    }

    /// Adds a line to the journal, where there is one.
    fn note(&mut self, line: JournalLine)
        requires
            old(self).wf(),
        ensures
            final(self).wf(),
            final(self)@ == (BookModel { journal: noted(old(self)@.journal, line@), ..old(self)@ }),
    {
        let ghost before = self.journal;
        let mut journal: Option<Vec<JournalLine>> = None;
        std::mem::swap(&mut journal, &mut self.journal);
        match journal {
            Some(mut lines) => {
                let ghost held = lines@;
                lines.push(line);
                assert(lines_model(lines@) =~= lines_model(held).push(line@));
                self.journal = Some(lines);
            },
            None => {},
        }
    }

    /// The journal lines that are to be written, oldest first. They are handed out once.
    pub fn take_journal_lines(&mut self) -> (r: Vec<JournalLine>)
        requires
            old(self).wf(),
        ensures
            final(self).wf(),
            match old(self)@.journal {
                Some(lines) => lines_model(r@) == lines && final(self)@ == (BookModel {
                    journal: Some(Seq::empty()),
                    ..old(self)@
                }),
                None => r@.len() == 0 && final(self)@ == old(self)@,
            },
    {
        let mut journal: Option<Vec<JournalLine>> = None;
        std::mem::swap(&mut journal, &mut self.journal);
        match journal {
            Some(lines) => {
                let fresh: Vec<JournalLine> = Vec::new();
                assert(lines_model(fresh@) =~= Seq::empty());
                self.journal = Some(fresh);
                lines
            },
            None => Vec::new(),
        }
    }

    /// The market's open claim.
    fn open_claim_id(&self, condition_id: &str) -> (r: Option<String>)
        requires
            self.wf(),
        ensures
            model::opt_text(r) == open_claim(self@, condition_id@),
    {
        let ghost s = str_map::ordered(self@.claims);
        let n: usize = self.claims.len();
        let mut i: usize = 0;
        assert(s.skip(0) =~= s);
        while i < n
            invariant
                self.wf(),
                s == str_map::ordered(self@.claims),
                n == s.len(),
                i <= n,
                first_claim(s, condition_id@) == first_claim(s.skip(i as int), condition_id@),
            decreases n - i,
        {
            let c = self.claims.value_at(i);
            assert(c@ == s[i as int].1);
            assert(s.skip(i as int).drop_first() =~= s.skip(i + 1));
            if text::same_text(c.condition_id.as_str(), condition_id) {
                return Some(c.id.clone());
            }
            i = i + 1;
        }
        None
    }

    /// The id of a new claim on a market: the market's own id for the first claim, then `#2`,
    /// `#3` and so on, so that the id of a redeemed claim is not used again.
    fn claim_id_for(&self, condition_id: &String) -> (r: String)
        requires
            self.wf(),
            redeemed_of(self@, condition_id@) < u32::MAX,
        ensures
            r@ == fresh_claim_id(self@, condition_id@),
    {
        let used: u32 = match self.redeemed_per_condition.get(condition_id.as_str()) {
            Some(n) => *n,
            None => 0,
        };
        if used == 0 && !self.claims.contains_key(condition_id.as_str()) {
            return condition_id.clone();
        }
        let mut out = condition_id.clone();
        out.append("#");
        out.append(text::write_u64((used + 1) as u64).as_str());
        proof {
            reveal_strlit("#");
            assert("#"@ =~= seq!['#']);
        }
        out
    }

    /// The positions whose settlement is committed and whose close is not: the caller closes each
    /// of them once and then calls [`SettlementBook::note_closed`].
    pub fn recover<'a>(&self, positions: &'a Vec<OpenPosition>) -> (r: Vec<&'a OpenPosition>)
        requires
            self.wf(),
        ensures
            r@.map_values(|p: &'a OpenPosition| *p) == positions@.filter(
                |p: OpenPosition| unfinished(self@, p),
            ),
    {
        let ghost f = |p: OpenPosition| unfinished(self@, p);
        let ghost all = positions@;
        let mut out: Vec<&'a OpenPosition> = Vec::new();
        let mut i: usize = 0;
        proof {
            reveal(Seq::filter);
            assert(out@.map_values(|p: &'a OpenPosition| *p) =~= all.take(0).filter(f));
        }
        while i < positions.len()
            invariant
                self.wf(),
                all == positions@,
                i <= all.len(),
                f == |p: OpenPosition| unfinished(self@, p),
                out@.map_values(|p: &'a OpenPosition| *p) == all.take(i as int).filter(f),
            decreases all.len() - i,
        {
            let p = &positions[i];
            let key = settlement_key(p);
            proof {
                reveal(Seq::filter);
                assert(all.take(i + 1).drop_last() =~= all.take(i as int));
                assert(all.take(i + 1).last() == *p);
            }
            if self.is_applied(key.as_str()) && !self.closed.contains(key.as_str()) {
                let ghost held = out@;
                out.push(p);
                assert(out@.map_values(|p: &'a OpenPosition| *p) =~= held.map_values(
                    |p: &'a OpenPosition| *p,
                ).push(*p));
            }
            i = i + 1;
        }
        assert(all.take(i as int) =~= all);
        out
    }

    /// The settlement committed under a key.
    pub fn record(&self, key: &str) -> (r: Option<&SettlementRecord>)
        requires
            self.wf(),
        ensures
            r is Some <==> self@.applied.dom().contains(key@),
            r matches Some(x) ==> x@ == self@.applied[key@],
    {
        self.applied.get(key)
    }

    /// Notes that the close of a settled position is durable.
    pub fn note_closed(&mut self, key: &str, now_ms: i64)
        requires
            old(self).wf(),
        ensures
            final(self).wf(),
            final(self)@ == close_step(old(self)@, key@, now_ms),
    {
        if !self.closed.insert(key.to_owned()) {
            assert(self@ =~= old(self)@);
            return ;
        }
        self.note(JournalLine::Closed { at_ms: now_ms, key: key.to_owned() });
    }

    /// Whether the close of a settlement is durable.
    pub fn is_closed(&self, key: &str) -> (r: bool)
        requires
            self.wf(),
        ensures
            r == self@.closed.contains(key@),
    {
        self.closed.contains(key)
    }

    /// The requests for the claims that are due. Handing one out stamps it with the next backoff,
    /// so that a lost result is tried again later.
    pub fn take_redemptions(&mut self, now_ms: i64) -> (r: Vec<RedemptionRequest>)
        requires
            old(self).wf(),
            forall|k: Seq<char>| #[trigger]
                old(self)@.claims.dom().contains(k) ==> claim_sent_ok(
                    old(self)@.claims[k],
                    now_ms,
                ),
        ensures
            final(self).wf(),
            final(self)@ == redemptions_step(old(self)@, now_ms),
            r@.map_values(|q: RedemptionRequest| q@) == requests_due(
                str_map::ordered(old(self)@.claims),
                now_ms,
            ),
    {
        let ghost s = str_map::ordered(self@.claims);
        let ghost f = |c: ClaimModel| claim_step(c, now_ms);
        let ghost g = |e: (Seq<char>, ClaimModel)| (e.0, f(e.1));
        let n: usize = self.claims.len();
        let mut out: Vec<RedemptionRequest> = Vec::new();
        let mut i: usize = 0;
        proof {
            assert(out@.map_values(|q: RedemptionRequest| q@) =~= Seq::empty());
            str_map::lemma_has_order(old(self)@.claims);
            str_map::lemma_entries_map(s);
            assert forall|j: int| 0 <= j < n implies claim_sent_ok((#[trigger] s[j]).1, now_ms) by {
                assert(self@.claims.dom().contains(s[j].0));
            }
        }
        while i < n
            invariant
                n == s.len(),
                i <= n,
                self@ == (BookModel { claims: self@.claims, ..old(self)@ }),
                forall|j: int| 0 <= j < n ==> claim_sent_ok((#[trigger] s[j]).1, now_ms),
                f == |c: ClaimModel| claim_step(c, now_ms),
                g == |e: (Seq<char>, ClaimModel)| (e.0, f(e.1)),
                str_map::ordered(self@.claims).len() == n,
                forall|j: int| 0 <= j < i ==> str_map::ordered(self@.claims)[j] == g(s[j]),
                forall|j: int| i <= j < n ==> str_map::ordered(self@.claims)[j] == s[j],
                out@.map_values(|q: RedemptionRequest| q@) == requests_due(
                    s.take(i as int),
                    now_ms,
                ),
            decreases n - i,
        {
            let c = self.claims.value_at(i);
            proof {
                assert(c@ == s[i as int].1);
                assert(s.take(i + 1).drop_last() =~= s.take(i as int));
                assert(s.take(i + 1).last() == s[i as int]);
            }
            if !c.manual && c.next_attempt_ms <= now_ms {
                let mut sent = c.clone();
                sent.attempts = sent.attempts + 1;
                sent.next_attempt_ms = now_ms + backoff_ms(sent.attempts);
                let ghost asked = out@;
                let request = sent.request();
                out.push(request);
                assert(out@.map_values(|q: RedemptionRequest| q@) =~= asked.map_values(
                    |q: RedemptionRequest| q@,
                ).push(request@));
                self.claims.set_value_at(i, sent);
            }
            i = i + 1;
        }
        proof {
            assert(s.take(i as int) =~= s);
            assert(str_map::ordered(self@.claims) =~= s.map_values(g));
            str_map::lemma_entries_map_values(s, f);
        }
        let _n: usize = self.claims.len();
        proof {
            assert(self@.claims == old(self)@.claims.map_values(f));
            assert(self@.claims.dom() =~= old(self)@.claims.dom());
        }
        out
    }

    /// Notes that a redemption attempt failed: the retry is armed, or stopped for good where only
    /// an operator can help, now or as an earlier result had it. Whether the claim is known.
    pub fn note_failure(&mut self, id: &str, failure: &RedemptionFailure, now_ms: i64) -> (r: bool)
        requires
            old(self).wf(),
            old(self)@.claims.dom().contains(id@) && !old(self)@.claims[id@].manual
                && !failure.manual ==> now_ms + backoff(old(self)@.claims[id@].attempts)
                <= i64::MAX,
        ensures
            final(self).wf(),
            r == old(self)@.claims.dom().contains(id@),
            final(self)@ == failure_step(
                old(self)@,
                id@,
                failure.message@,
                failure.manual,
                now_ms,
            ),
    {
        let ghost before = self@.claims;
        match self.claims.remove(id) {
            Some(mut c) => {
                if self.failures < u64::MAX {
                    self.failures = self.failures + 1;
                }
                c.last_error = Some(failure.message.clone());
                c.failed_no = self.failures;
                c.manual = c.manual || failure.manual;
                if c.manual {
                    c.next_attempt_ms = i64::MAX;
                } else {
                    c.next_attempt_ms = now_ms + backoff_ms(c.attempts);
                }
                self.claims.insert(id.to_owned(), c);
                assert(self@.claims =~= before.insert(id@, c@));
                true
            },
            None => {
                assert(self@.claims =~= before);
                false
            },
        }
    }

    /// Notes that a redemption landed: the claim leaves the receivable. The result is the payout
    /// to credit, once.
    pub fn note_confirmed(
        &mut self,
        id: &str,
        tx_hash: Option<String>,
        block_number: Option<u64>,
        now_ms: i64,
    ) -> (r: Option<Decimal>)
        requires
            old(self).wf(),
            old(self)@.claims.dom().contains(id@) ==> redeemed_of(
                old(self)@,
                old(self)@.claims[id@].condition_id,
            ) < u32::MAX,
        ensures
            final(self).wf(),
            r == confirmed_payout(old(self)@, id@),
            final(self)@ == confirm_step(
                old(self)@,
                id@,
                model::opt_text(tx_hash),
                block_number,
                now_ms,
            ),
    {
        if !self.claims.contains_key(id) {
            return None;
        }
        let id = id.to_owned();
        match self.retire_claim(&id) {
            Some(claim) => {
                self.note(
                    JournalLine::Redeemed { at_ms: now_ms, claim_id: id, tx_hash, block_number },
                );
                Some(claim.payout_usd)
            },
            None => None,
        }
    }

    /// A summary in one line.
    pub fn summary(&self) -> (r: String)
        requires
            self.wf(),
            payouts_sum_ok(str_map::ordered(self@.claims)),
        ensures
            r@ == summary_text(self@),
    {
        let mut out = "settled=".to_owned();
        out.append(text::write_u64(self.applied.len() as u64).as_str());
        out.append(" pending_redeem=");
        out.append(text::write_u64(self.claims.len() as u64).as_str());
        out.append(" receivable=");
        out.append(self.receivable_usd().text().as_str());
        out.append(" manual=");
        out.append(text::write_u64(self.manual_claim_count() as u64).as_str());
        out
    }
}

/// A position whose settlement is committed and whose close is not.
pub open spec fn unfinished(m: BookModel, p: OpenPosition) -> bool {
    m.applied.dom().contains(position_key(p)) && !m.closed.contains(position_key(p))
}

// ---------------------------------------------------------------------------------------------
// Asking beforehand

impl SettlementBook {
    /// The collateral earned but not yet in the wallet, where every partial sum stays in range.
    pub fn checked_receivable_usd(&self) -> (r: Option<Decimal>)
        requires
            self.wf(),
        ensures
            match r {
                Some(d) => {
                    &&& payouts_sum_ok(str_map::ordered(self@.claims))
                    &&& d == payouts_sum(str_map::ordered(self@.claims))
                },
                None => !payouts_sum_ok(str_map::ordered(self@.claims)),
            },
    {
        let ghost s = str_map::ordered(self@.claims);
        let n: usize = self.claims.len();
        let mut sum = Decimal::zero();
        let mut i: usize = 0;
        while i < n
            invariant
                self.wf(),
                s == str_map::ordered(self@.claims),
                n == s.len(),
                i <= n,
                payouts_sum_ok(s.take(i as int)),
                sum == payouts_sum(s.take(i as int)),
            decreases n - i,
        {
            let c = self.claims.value_at(i);
            proof {
                assert(c@ == s[i as int].1);
                assert(s.take(i + 1).drop_last() =~= s.take(i as int));
                assert(s.take(i + 1).last() == s[i as int]);
                lemma_payouts_prefix(s, i + 1);
            }
            if !sum.can_plus(c.payout_usd) {
                return None;
            }
            sum = sum.plus(c.payout_usd);
            i = i + 1;
        }
        assert(s.take(i as int) =~= s);
        Some(self.receivable_usd())
    }

    /// A summary in one line, where what is owed stays in range.
    pub fn checked_summary(&self) -> (r: Option<String>)
        requires
            self.wf(),
        ensures
            match r {
                Some(t) => t@ == summary_text(self@),
                None => !payouts_sum_ok(str_map::ordered(self@.claims)),
            },
    {
        if self.checked_receivable_usd().is_some() {
            Some(self.summary())
        } else {
            None
        }
    }

    fn claims_fit(&self, record: &SettlementRecord) -> (r: bool)
        requires
            self.wf(),
        ensures
            r == claims_with_ok(self@.claims, record@),
    {
        match self.claims.get(record.claim_id.as_str()) {
            None => true,
            Some(c) => c.payout_usd.can_plus(record.payout_usd) && match record.outcome_index {
                Some(k) => k >= c.outcome_shares.len() || c.outcome_shares[k].can_plus(
                    record.shares,
                ),
                None => true,
            },
        }
    }

    fn replay_fits(&self, line: &JournalLine) -> (r: bool)
        requires
            self.wf(),
        ensures
            r == replay_ok(self@, line@),
    {
        match line {
            JournalLine::Settlement { at_ms: _, record } => record.claim_id.as_str().is_empty()
                || self.claims_fit(record),
            JournalLine::Closed { at_ms: _, key: _ } => true,
            JournalLine::Redeemed { at_ms: _, claim_id, tx_hash: _, block_number: _ } =>
            match self.claims.get(claim_id.as_str()) {
                Some(c) => match self.redeemed_per_condition.get(c.condition_id.as_str()) {
                    Some(n) => *n < u32::MAX,
                    None => true,
                },
                None => true,
            },
        }
    }

    fn try_replay(&mut self, line: &JournalLine) -> (r: bool)
        requires
            old(self).wf(),
        ensures
            final(self).wf(),
            r == replay_ok(old(self)@, line@),
            r ==> final(self)@ == replayed(old(self)@, line@),
    {
        let fits = self.replay_fits(line);
        if fits {
            self.replay(line);
        }
        fits
    }

    /// Whether the lines of an earlier book's journal can be taken in: no sum of theirs leaves its
    /// range.
    pub fn journal_fits(lines: &Vec<JournalLine>) -> (r: bool)
        ensures
            r == replay_all_ok(empty_book(true), lines_model(lines@)),
    {
        let ghost all = lines_model(lines@);
        let ghost start = empty_book(true);
        let none: Vec<JournalLine> = Vec::new();
        assert(lines_model(none@) =~= Seq::empty());
        let mut book = SettlementBook::new(Some(none));
        let mut i: usize = 0;
        let mut fits = true;
        assert(all.take(0) =~= Seq::empty());
        while i < lines.len() && fits
            invariant
                i <= lines@.len(),
                all == lines_model(lines@),
                book.wf(),
                fits ==> book@ == replayed_all(start, all.take(i as int)),
                fits == replay_all_ok(start, all.take(i as int)),
            decreases lines@.len() - i,
        {
            proof {
                assert(all[i as int] == lines@[i as int]@);
                assert(all.take(i + 1).drop_last() =~= all.take(i as int));
                assert(all.take(i + 1).last() == all[i as int]);
            }
            fits = book.try_replay(&lines[i]);
            i = i + 1;
        }
        proof {
            if replay_all_ok(start, all) {
                lemma_replay_prefix(start, all, i as int);
            }
            if fits {
                assert(all.take(i as int) =~= all);
            }
        }
        fits
    }

    /// Opens the book, where the journal can be taken in.
    pub fn checked_new(journal: Option<Vec<JournalLine>>) -> (r: Option<Self>)
        ensures
            match r {
                Some(book) => {
                    &&& book.wf()
                    &&& book@ == match journal {
                        Some(lines) => replayed_all(empty_book(true), lines_model(lines@)),
                        None => empty_book(false),
                    }
                },
                None => journal matches Some(lines) && !replay_all_ok(
                    empty_book(true),
                    lines_model(lines@),
                ),
            },
    {
        if let Some(lines) = &journal {
            if !SettlementBook::journal_fits(lines) {
                return None;
            }
        }
        Some(SettlementBook::new(journal))
    }

    /// Whether a settlement can be booked: no sum and no count of it leaves its range.
    pub fn book_fits(
        &self,
        booking: &SettlementBooking,
        resolution: &MarketResolution,
        now_ms: i64,
    ) -> (r: bool)
        requires
            self.wf(),
        ensures
            r == book_ok(self@, booking@, *resolution, now_ms),
    {
        if self.is_applied(booking.key.as_str()) {
            return true;
        }
        if self.booked == u64::MAX {
            return false;
        }
        let claim_id = match self.open_claim_id(booking.condition_id.as_str()) {
            Some(id) => id,
            None => {
                if !booking.payout_usd.is_positive() {
                    return true;
                }
                if let Some(n) = self.redeemed_per_condition.get(booking.condition_id.as_str()) {
                    if *n == u32::MAX {
                        return false;
                    }
                }
                self.claim_id_for(&booking.condition_id)
            },
        };
        match self.claims.get(claim_id.as_str()) {
            None => true,
            Some(c) => c.payout_usd.can_plus(booking.payout_usd) && match booking.outcome_index {
                Some(k) => k >= c.outcome_shares.len() || c.outcome_shares[k].can_plus(
                    booking.shares,
                ),
                None => true,
            },
        }
    }
}

} // verus!
