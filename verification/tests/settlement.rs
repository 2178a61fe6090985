use blitzkrieg_core::decimal::Decimal;
use blitzkrieg_core::model::{
    CashFlows, MarketResolution, OpenPosition, OrderRole, RedemptionFailure, SignalDirection,
};
use blitzkrieg_core::settlement::{
    backoff_ms, booking_for, settlement_key, JournalLine, SettlementBook, BLIND_AFTER_MS,
    EXPIRY_TRUST_MS, REQUERY_MS,
};

fn dec(num: i64, scale: u32) -> Decimal {
    Decimal::new(num, scale)
}

fn whole(num: i64) -> Decimal {
    Decimal::new(num, 0)
}

fn position(id: &str, token: &str, shares: Decimal, entered_ms: i64) -> OpenPosition {
    OpenPosition {
        id: id.into(),
        strategy: "spread_arb".into(),
        asset: "BTC".into(),
        direction: SignalDirection::Up,
        token_id: token.into(),
        condition_id: "cond-1".into(),
        entry_price: dec(40, 2),
        current_price: dec(40, 2),
        prev_price: dec(40, 2),
        shares,
        cost_usd: whole(4),
        was_maker_entry: true,
        entry_fee_pct: Decimal::zero(),
        entry_role: OrderRole::Maker,
        exit_role: OrderRole::Pending,
        target_exit_price: None,
        entered_at_ms: entered_ms,
        expires_at_ms: entered_ms + 300_000,
        last_book_ts: 0,
        flows: CashFlows {
            entry_cost_usd: whole(4),
            entry_fee_usd: Decimal::zero(),
            exit_fee_usd: Decimal::zero(),
            proceeds_usd: Decimal::zero(),
            opened_shares: shares,
        },
    }
}

fn resolution(payouts: Vec<(&str, Decimal)>) -> MarketResolution {
    let winning_token = payouts
        .iter()
        .find(|(_, p)| p.is_positive())
        .map(|(t, _)| t.to_string());
    MarketResolution {
        condition_id: "cond-1".into(),
        resolved: true,
        payouts: payouts
            .into_iter()
            .map(|(t, p)| (t.to_string(), p))
            .collect(),
        neg_risk: true,
        source: "test".into(),
        winning_token,
    }
}

fn win() -> MarketResolution {
    resolution(vec![("up", whole(1)), ("down", whole(0))])
}

fn book_with_journal() -> SettlementBook {
    SettlementBook::new(Some(Vec::new()))
}

#[test]
fn booking_prices_a_win_and_a_loss() {
    let p = position("hft-1", "up", whole(10), 1_000);
    let b = booking_for(&p, &win()).unwrap();
    assert_eq!(b.payout_per_share, whole(1));
    assert_eq!(b.payout_usd, whole(10));
    assert!(b.winning);
    assert_eq!(b.outcome_index, Some(0));

    let losing = resolution(vec![("up", whole(0)), ("down", whole(1))]);
    let b = booking_for(&p, &losing).unwrap();
    assert_eq!(b.payout_usd, Decimal::zero());
    assert!(!b.winning);
}

#[test]
fn booking_ignores_a_resolution_for_another_market_or_token() {
    let p = position("hft-1", "up", whole(10), 1_000);
    let mut other = win();
    other.condition_id = "cond-2".into();
    assert!(booking_for(&p, &other).is_none());
    let partial = resolution(vec![("other-token", whole(1))]);
    assert!(booking_for(&p, &partial).is_none());
}

#[test]
fn settlement_is_idempotent_in_memory() {
    let mut book = book_with_journal();
    let p = position("hft-1", "up", whole(10), 1_000);
    let b = booking_for(&p, &win()).unwrap();
    let first = book.book(&b, &win(), 10).expect("first booking");
    assert_eq!(first.claim_id, "cond-1");
    assert!(
        book.book(&b, &win(), 11).is_none(),
        "second booking refused"
    );
    assert_eq!(book.applied_count(), 1);
    assert_eq!(book.receivable_usd(), whole(10));
    // A diag read of the journal: one line, one settlement.
    assert_eq!(book.take_journal_lines().len(), 1);
}

#[test]
fn settlement_survives_a_restart_and_is_not_rebooked() {
    let mut book = book_with_journal();
    let p = position("hft-1", "up", whole(10), 1_000);
    let b = booking_for(&p, &win()).unwrap();
    book.book(&b, &win(), 10).unwrap();
    let mut journal: Vec<JournalLine> = book.take_journal_lines();
    drop(book);

    let mut reopened = SettlementBook::new(Some(journal.clone()));
    assert!(reopened.is_applied(&settlement_key(&p)));
    assert_eq!(reopened.receivable_usd(), whole(10));
    assert_eq!(reopened.pending_claim_count(), 1);
    assert!(reopened.book(&b, &win(), 20).is_none(), "no rebooking");
    // ...and the restored claim is redeemable.
    let due = reopened.take_redemptions(100);
    assert_eq!(due.len(), 1);
    assert_eq!(due[0].condition_id, "cond-1");
    assert_eq!(due[0].outcome_shares, vec![whole(10), Decimal::zero()]);
    assert!(due[0].neg_risk, "the neg-risk flag survives a restart");
    assert_eq!(due[0].winning_token_id, "up");

    // Confirming it clears the receivable and is durable too.
    let payout = reopened
        .note_confirmed(&due[0].id, Some("0xabc".into()), Some(7), 101)
        .unwrap();
    assert_eq!(payout, whole(10));
    assert_eq!(reopened.receivable_usd(), Decimal::zero());
    journal.extend(reopened.take_journal_lines());
    drop(reopened);

    let mut after = SettlementBook::new(Some(journal));
    assert_eq!(
        after.receivable_usd(),
        Decimal::zero(),
        "redeemed stays redeemed"
    );
    assert!(after.take_redemptions(1_000_000).is_empty());
}

#[test]
fn recover_reports_positions_whose_close_never_ran() {
    let mut book = book_with_journal();
    let p = position("hft-1", "up", whole(10), 1_000);
    let b = booking_for(&p, &win()).unwrap();
    book.book(&b, &win(), 10).unwrap();
    // The position book still holds it (the close was interrupted).
    let restored = vec![p.clone()];
    let stale = book.recover(&restored);
    assert_eq!(stale.len(), 1);
    assert_eq!(stale[0].id, "hft-1");
    // A position that was never settled is not reported.
    let fresh = position("hft-2", "down", whole(3), 2_000);
    assert!(book.recover(&vec![fresh]).is_empty());
}

#[test]
fn two_positions_on_one_market_share_a_claim() {
    let mut book = book_with_journal();
    let up = position("hft-1", "up", whole(10), 1_000);
    let down = position("hft-2", "down", whole(4), 1_500);
    let mut r = win();
    r.neg_risk = true;
    let bu = booking_for(&up, &r).unwrap();
    let bd = booking_for(&down, &r).unwrap();
    let c1 = book.book(&bu, &r, 10).unwrap().claim_id;
    let c2 = book.book(&bd, &r, 11).unwrap().claim_id;
    assert_eq!(c1, c2, "one market, one claim");
    let claim = book.claim(&c1).unwrap();
    assert_eq!(claim.outcome_shares, vec![whole(10), whole(4)]);
    assert_eq!(claim.payout_usd, whole(10));
    assert_eq!(claim.position_ids, vec!["hft-1", "hft-2"]);
}

#[test]
fn a_market_settled_again_after_a_redeem_gets_a_fresh_claim_id() {
    let mut book = book_with_journal();
    let p = position("hft-1", "up", whole(10), 1_000);
    let b = booking_for(&p, &win()).unwrap();
    let first = book.book(&b, &win(), 10).unwrap().claim_id;
    let due = book.take_redemptions(100);
    book.note_confirmed(&due[0].id, Some("0x1".into()), Some(1), 101);
    assert_eq!(first, "cond-1");
    // A later entry on the same market (a re-open in the same round) settles
    // into a NEW claim: the redeemed id is never reused.
    let p2 = position("hft-9", "up", whole(2), 5_000);
    let b2 = booking_for(&p2, &win()).unwrap();
    let second = book.book(&b2, &win(), 5_001).unwrap().claim_id;
    assert_eq!(second, "cond-1#2", "the second claim on the market");
    assert_eq!(book.receivable_usd(), whole(2));
}

#[test]
fn failures_are_recorded_and_backed_off() {
    let mut book = book_with_journal();
    let p = position("hft-1", "up", whole(10), 1_000);
    let b = booking_for(&p, &win()).unwrap();
    let id = book.book(&b, &win(), 10).unwrap().claim_id;
    assert_eq!(book.take_redemptions(100).len(), 1);
    assert!(
        book.take_redemptions(100).is_empty(),
        "in flight, not re-sent"
    );
    book.note_failure(
        &id,
        &RedemptionFailure {
            message: "nonce too low".into(),
            manual: false,
        },
        200,
    );
    let (attempts, next_attempt_ms, last_error) = {
        let c = book.claim(&id).unwrap();
        (c.attempts, c.next_attempt_ms, c.last_error.clone())
    };
    assert_eq!(last_error.as_deref(), Some("nonce too low"));
    assert_eq!(attempts, 1);
    assert!(next_attempt_ms > 200, "backoff armed");
    assert!(book.take_redemptions(201).is_empty());
    assert_eq!(book.take_redemptions(next_attempt_ms).len(), 1);

    // A manual verdict is terminal: no further automatic attempt.
    book.note_failure(
        &id,
        &RedemptionFailure {
            message: "positions held by another address".into(),
            manual: true,
        },
        300,
    );
    assert_eq!(book.manual_claim_count(), 1);
    assert!(book.take_redemptions(i64::MAX - 1).is_empty());
    // The money is still owed to us, so the receivable stays on the books.
    assert_eq!(book.receivable_usd(), whole(10));
}

#[test]
fn blind_detection_needs_an_unanswered_query_older_than_the_grace() {
    let mut book = book_with_journal();
    let p = position("hft-1", "up", whole(10), 1_000);
    book.track_markets(&vec![p.clone()], 400_000);
    assert_eq!(book.tracked_markets(), 1);
    let q = book.take_queries(400_000);
    assert_eq!(q.len(), 1);
    assert_eq!(q[0].token_ids, vec!["up".to_string()]);
    assert!(book.blind_since_ms(400_000 + BLIND_AFTER_MS + 1).is_some());
    // A venue that answers "not resolved yet" is alive: not blind, and no
    // storm of re-queries either.
    book.note_answer("cond-1", false, 400_001);
    assert!(
        book.blind_since_ms(400_001 + BLIND_AFTER_MS).is_none(),
        "a fresh answer is a sign of life"
    );
    assert!(book.take_queries(400_001 + REQUERY_MS - 1).is_empty());
    // The re-query clock re-arms after REQUERY_MS; a lost query (no answer
    // at all) is re-sent on the same cadence.
    assert_eq!(book.take_queries(400_001 + REQUERY_MS + 1).len(), 1);
    assert_eq!(book.take_queries(400_001 + 2 * REQUERY_MS + 2).len(), 1);
    // Answer once and then never again: the newest sign of life ages out.
    assert!(book
        .blind_since_ms(400_001 + REQUERY_MS + 1 + BLIND_AFTER_MS)
        .is_some());
    // The alert fires on the healthy → blind edge, once.
    assert!(book.note_blind_state(true));
    assert!(!book.note_blind_state(true));
    assert!(!book.note_blind_state(false));
    assert!(book.note_blind_state(true), "a new episode alerts again");
}

#[test]
fn unresolved_markets_are_not_tracked_before_expiry() {
    let mut book = book_with_journal();
    let p = position("hft-1", "up", whole(10), 1_000);
    // Before the round expires there is nothing to ask the venue.
    assert_eq!(book.track_markets(&vec![p.clone()], 1_500), 0);
    assert_eq!(book.tracked_markets(), 0);
    assert_eq!(book.track_markets(&vec![p], 400_000), 1);
}

#[test]
fn a_market_that_ended_before_we_entered_is_never_tracked() {
    let mut book = book_with_journal();
    let mut p = position("hft-1", "up", whole(10), 1_756_000_000_000);
    p.expires_at_ms = 2_000; // `(roundSlot 1 + 1) * 1000ms` against an epoch clock
    let now = 1_756_000_000_001;
    assert_eq!(book.track_markets(&vec![p.clone()], now), 0);
    assert_eq!(book.tracked_markets(), 0);
    assert!(book.take_queries(now).is_empty());

    // A market end just behind the entry is still that market's (a venue fill
    // is reported a little after the round it belongs to): it IS watched.
    let mut late = position("hft-2", "up", whole(10), now);
    late.expires_at_ms = now - EXPIRY_TRUST_MS + 1;
    assert_eq!(
        book.track_markets(&vec![late], now + 1),
        1,
        "a late-reported fill on a just-ended round is settleable"
    );
    assert_eq!(book.tracked_markets(), 1);
}

#[test]
fn the_retry_delay_doubles_to_its_ceiling() {
    assert_eq!(backoff_ms(0), 5_000);
    assert_eq!(backoff_ms(1), 5_000);
    assert_eq!(backoff_ms(2), 10_000);
    assert_eq!(backoff_ms(6), 160_000);
    assert_eq!(backoff_ms(7), 300_000);
    assert_eq!(backoff_ms(u32::MAX), 300_000);
}

#[test]
fn settlement_keys_name_market_token_and_entry() {
    let p = position("hft-1", "up", whole(10), -1_205);
    assert_eq!(settlement_key(&p), "cond-1:up:-1205");
    let q = position("hft-1", "up", whole(10), 1_205);
    assert_eq!(settlement_key(&q), "cond-1:up:1205");
    let z = position("hft-1", "up", whole(10), 0);
    assert_eq!(settlement_key(&z), "cond-1:up:0");
}

#[test]
fn the_summary_counts_and_sums() {
    let mut book = book_with_journal();
    let p = position("hft-1", "up", dec(1050, 2), 1_000);
    let b = booking_for(&p, &win()).unwrap();
    book.book(&b, &win(), 10).unwrap();
    assert_eq!(
        book.summary(),
        "settled=1 pending_redeem=1 receivable=10.50 manual=0"
    );
    assert_eq!(book.booked_this_session(), 1);
    assert_eq!(book.retryable_claim_count(), 1);
    assert_eq!(book.checked_summary().unwrap(), book.summary());
}

#[test]
fn a_worthless_leg_rides_along_or_gets_no_claim() {
    let losing = resolution(vec![("up", whole(0)), ("down", whole(1))]);
    let up = position("hft-1", "up", whole(10), 1_000);
    let mut book = book_with_journal();
    let alone = book
        .book(&booking_for(&up, &losing).unwrap(), &losing, 10)
        .unwrap();
    assert_eq!(alone.claim_id, "");
    assert_eq!(book.pending_claim_count(), 0);
    let down = position("hft-2", "down", whole(3), 2_000);
    let paid = book
        .book(&booking_for(&down, &losing).unwrap(), &losing, 11)
        .unwrap();
    assert_eq!(paid.claim_id, "cond-1");
    let up2 = position("hft-3", "up", whole(5), 3_000);
    let rides = book
        .book(&booking_for(&up2, &losing).unwrap(), &losing, 12)
        .unwrap();
    assert_eq!(rides.claim_id, "cond-1");
    assert_eq!(
        book.claim("cond-1").unwrap().outcome_shares,
        vec![whole(5), whole(3)]
    );
    assert_eq!(book.receivable_usd(), whole(3));
}

#[test]
fn the_last_error_is_the_newest_problem() {
    let mut book = book_with_journal();
    for (cond, id) in [("m-b", "p1"), ("m-a", "p2")] {
        let mut p = position(id, "up", whole(1), 1_000);
        p.condition_id = cond.into();
        let mut r = win();
        r.condition_id = cond.into();
        book.book(&booking_for(&p, &r).unwrap(), &r, 10).unwrap();
    }
    assert!(book.last_error().is_none());
    let fail = |m: &str, manual: bool| RedemptionFailure {
        message: m.into(),
        manual,
    };
    assert!(book.note_failure("m-b", &fail("early", true), 100));
    assert_eq!(book.last_error(), Some(("m-b", "early", true)));
    assert!(book.note_failure("m-a", &fail("late", false), 200));
    assert!(!book.note_failure("m-c", &fail("unknown", false), 300));
    assert_eq!(book.last_error(), Some(("m-a", "late", false)));
    // What is handed out leaves the newest problem shown; of two in one moment it is the second.
    book.take_redemptions(1_000_000);
    assert_eq!(book.last_error(), Some(("m-a", "late", false)));
    book.note_failure("m-a", &fail("one", false), 400);
    book.note_failure("m-b", &fail("two", false), 400);
    assert_eq!(book.last_error(), Some(("m-b", "two", true)));
    // A redeemed claim has no problem any more.
    book.note_confirmed("m-b", None, None, 500);
    assert_eq!(book.last_error(), Some(("m-a", "one", false)));
    let ids: Vec<&str> = book.claims().iter().map(|c| c.id.as_str()).collect();
    assert_eq!(ids, vec!["m-a"]);
}

#[test]
fn a_late_result_does_not_undo_a_manual_verdict() {
    let mut book = book_with_journal();
    let p = position("hft-1", "up", whole(10), 1_000);
    let b = booking_for(&p, &win()).unwrap();
    let id = book.book(&b, &win(), 10).unwrap().claim_id;
    assert_eq!(book.take_redemptions(100).len(), 1);
    let fail = |m: &str, manual: bool| RedemptionFailure {
        message: m.into(),
        manual,
    };
    book.note_failure(&id, &fail("held elsewhere", true), 200);
    book.note_failure(&id, &fail("nonce too low", false), 300);
    let c = book.claim(&id).unwrap();
    assert!(c.manual);
    assert_eq!(c.next_attempt_ms, i64::MAX);
    assert!(book.take_redemptions(i64::MAX - 1).is_empty());
    assert_eq!(book.manual_claim_count(), 1);
    assert_eq!(book.receivable_usd(), whole(10));
}

#[test]
fn a_query_is_asked_again_once_its_interval_is_over() {
    let mut book = book_with_journal();
    let p = position("hft-1", "up", whole(10), 1_000);
    book.track_markets(&vec![p.clone()], 400_000);
    assert_eq!(book.take_queries(400_000).len(), 1);
    // No answer comes: not again within the interval, and right after it.
    assert!(book.take_queries(400_000 + REQUERY_MS).is_empty());
    book.track_markets(&vec![p], 400_000 + REQUERY_MS);
    assert_eq!(book.take_queries(400_000 + REQUERY_MS + 1).len(), 1);
    // An answer comes: again an interval after the answer.
    book.note_answer("cond-1", true, 500_000);
    assert!(book.take_queries(500_000 + REQUERY_MS - 1).is_empty());
    assert_eq!(book.take_queries(500_000 + REQUERY_MS).len(), 1);
}

#[test]
fn a_closed_settlement_is_not_recovered_again() {
    let mut book = book_with_journal();
    let p = position("hft-1", "up", whole(10), 1_000);
    let b = booking_for(&p, &win()).unwrap();
    book.book(&b, &win(), 10).unwrap();
    let key = settlement_key(&p);
    assert!(!book.is_closed(&key));
    book.note_closed(&key, 11);
    book.note_closed(&key, 12);
    assert!(book.is_closed(&key));
    assert!(book.recover(&vec![p.clone()]).is_empty());
    let lines = book.take_journal_lines();
    assert_eq!(lines.len(), 2);
    let reopened = SettlementBook::new(Some(lines));
    assert!(reopened.is_closed(&key));
    assert!(reopened.recover(&vec![p]).is_empty());
    assert_eq!(reopened.record(&key).unwrap().claim_id, "cond-1");
}

#[test]
fn a_book_without_a_journal_writes_nothing() {
    let mut book = SettlementBook::new(None);
    let p = position("hft-1", "up", whole(10), 1_000);
    let b = booking_for(&p, &win()).unwrap();
    book.book(&b, &win(), 10).unwrap();
    assert!(book.take_journal_lines().is_empty());
}

#[test]
fn a_short_holding_counts_as_none() {
    let p = position("hft-1", "up", whole(-3), 1_000);
    let b = booking_for(&p, &win()).unwrap();
    assert_eq!(b.shares, Decimal::zero());
    assert_eq!(b.payout_usd, Decimal::zero());
    assert!(b.winning);
}

#[test]
fn a_forgotten_market_is_not_asked_about() {
    let mut book = book_with_journal();
    let p = position("hft-1", "up", whole(10), 1_000);
    book.track_markets(&vec![p], 400_000);
    assert_eq!(book.tracked_condition_ids(), vec!["cond-1".to_string()]);
    book.forget_market("cond-1");
    assert_eq!(book.tracked_markets(), 0);
    assert!(book.take_queries(400_000).is_empty());
}

#[test]
fn redeemed_claims_are_counted() {
    let mut book = book_with_journal();
    let p = position("hft-1", "up", whole(10), 1_000);
    let b = booking_for(&p, &win()).unwrap();
    book.book(&b, &win(), 10).unwrap();
    assert_eq!(book.redeemed_count(), 0);
    assert_eq!(book.note_confirmed("cond-1", None, None, 20), Some(whole(10)));
    assert_eq!(book.note_confirmed("cond-1", None, None, 21), None);
    assert_eq!(book.redeemed_count(), 1);
}

#[test]
fn a_redemption_takes_one_claim_out() {
    let mut book = book_with_journal();
    let first = position("hft-1", "up", whole(10), 1_000);
    let b = booking_for(&first, &win()).unwrap();
    book.book(&b, &win(), 10).unwrap();
    assert_eq!(book.note_confirmed("cond-1", None, None, 20), Some(whole(10)));
    let later = position("hft-2", "up", whole(2), 2_000);
    let b = booking_for(&later, &win()).unwrap();
    let id = book.book(&b, &win(), 30).unwrap().claim_id;
    let other = position("hft-3", "up", whole(3), 3_000);
    let b = booking_for(&other, &win()).unwrap();
    book.book(&b, &win(), 40).unwrap();
    assert_eq!(book.receivable_usd(), whole(5));
    assert_eq!(book.take_redemptions(50).len(), 1);
    assert!(book.take_redemptions(50).is_empty());
    assert_eq!(book.note_confirmed(&id, None, None, 60), Some(whole(5)));
    assert!(book.claim(&id).is_none());
    assert_eq!(book.receivable_usd(), whole(0));
    assert_eq!(book.redeemed_count(), 2);
}
