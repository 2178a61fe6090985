//! What runs beside the orders: market data and entries, the reasons of closes in flight, starting
//! over, the maintenance pass, and strategies that come and go.
use vstd::prelude::*;

use crate::audit;
use crate::cash_laws;
use crate::config::CoreConfigModel;
use crate::decimal;
use crate::decimal::Decimal;
use crate::entries;
use crate::entries::{CryptoMarketModel, DataEventModel};
use crate::exit_reasons;
use crate::exit_reasons::{ExitReasonsView, ReasonsModel};
use crate::lifecycle;
use crate::limits;
use crate::maintenance;
use crate::maintenance::{Repair, SweepReport, TickStep};
use crate::model::{
    ExitReason, FillPolicy, Mode, OpenPosition, OrderRequestModel, Side, TrackedOrderModel,
};
use crate::order_laws;
use crate::placing;
use crate::rejections;
use crate::service;
use crate::service::{CoreModel, CoreStats};
use crate::settlement::BookModel;
use crate::strategies;
use crate::strategies::Decision;
use crate::text;

verus! {

// ---------------------------------------------------------------------------------------------
// Market data

/// A level of a book that stands for a best price: the price, with one share.
pub open spec fn is_top(levels: Seq<(Decimal, Decimal)>, best: Option<Decimal>) -> bool {
    if best is Some && best->0@ > 0 {
        levels.len() == 1 && levels[0].0 == best->0 && levels[0].1@ == decimal::one_unit()
    } else {
        levels.len() == 0
    }
}

/// A book that comes replaces the token's own book whole, side by side, and best prices that come
/// replace it by themselves, each on its side; prices that are none wipe no book out, and what is no
/// book changes none. No other token's book moves.
pub proof fn law_a_book_that_comes_replaces_its_tokens_book(
    m: CoreModel,
    ev: DataEventModel,
    open_tokens: Seq<Seq<char>>,
    other: Seq<char>,
)
    ensures
        ({
            let after = entries::data_taken(m, ev, open_tokens).books;
            match ev {
                DataEventModel::Book { token_id, bids, asks, now_ms } => {
                    &&& after.dom().contains(token_id)
                    &&& after[token_id].bids == bids
                    &&& after[token_id].asks == asks
                    &&& other != token_id ==> after.dom().contains(other) == m.books.dom().contains(
                        other,
                    ) && (m.books.dom().contains(other) ==> after[other] == m.books[other])
                },
                DataEventModel::TopOfBook { token_id, best_bid, best_ask, now_ms } => {
                    &&& (best_bid is Some && best_bid->0@ > 0) || (best_ask is Some && best_ask->0@
                        > 0) ==> after.dom().contains(token_id) && is_top(
                        after[token_id].bids,
                        best_bid,
                    ) && is_top(after[token_id].asks, best_ask)
                    &&& !(best_bid is Some && best_bid->0@ > 0) && !(best_ask is Some
                        && best_ask->0@ > 0) ==> after == m.books
                    &&& other != token_id ==> after.dom().contains(other) == m.books.dom().contains(
                        other,
                    ) && (m.books.dom().contains(other) ==> after[other] == m.books[other])
                },
                _ => after == m.books,
            }
        }),
{
    decimal::lemma_parts_of((1, 0));
    reveal_with_fuel(decimal::pow10, 30);
}

/// An event counts once, for its own kind; and only a new round drops reasons of closes.
pub proof fn law_an_event_counts_for_its_kind(
    m: CoreModel,
    ev: DataEventModel,
    open_tokens: Seq<Seq<char>>,
)
    requires
        m.stats.books < u64::MAX,
        m.stats.tops < u64::MAX,
        m.stats.spots < u64::MAX,
        m.stats.rounds < u64::MAX,
    ensures
        ({
            let after = entries::data_taken(m, ev, open_tokens);
            &&& after.stats.books == m.stats.books + if ev is Book {
                1int
            } else {
                0
            }
            &&& after.stats.tops == m.stats.tops + if ev is TopOfBook {
                1int
            } else {
                0
            }
            &&& after.stats.spots == m.stats.spots + if ev is Spot {
                1int
            } else {
                0
            }
            &&& after.stats.rounds == m.stats.rounds + if ev is RoundMarkets {
                1int
            } else {
                0
            }
            &&& after.stats == (CoreStats {
                books: after.stats.books,
                tops: after.stats.tops,
                spots: after.stats.spots,
                rounds: after.stats.rounds,
                ..m.stats
            })
            &&& !(ev is RoundMarkets) ==> after.exit_reasons == m.exit_reasons
            &&& after == (CoreModel {
                stats: after.stats,
                exit_reasons: after.exit_reasons,
                books: after.books,
                ..m
            })
        }),
{
}

/// A book may fill the working orders that rest on its token, where the kernel fills by itself, and no
/// other order.
pub proof fn law_a_book_may_fill_what_rests_on_its_token(
    m: CoreModel,
    token_id: Seq<char>,
    bids: Seq<(Decimal, Decimal)>,
    asks: Seq<(Decimal, Decimal)>,
    now_ms: i64,
    orders: Seq<TrackedOrderModel>,
    id: Seq<char>,
)
    ensures
        entries::hit_by(
            m,
            DataEventModel::Book { token_id, bids, asks, now_ms },
            orders,
        ).contains(id) <==> m.config.mode != Mode::Live && exists|i: int|
            0 <= i < orders.len() && (#[trigger] orders[i]).order_id == id && orders[i].live
                && orders[i].token_id == token_id && orders[i].mode != FillPolicy::Taker,
{
    order_laws::law_a_list_names_the_working_orders(orders, token_id, id);
}

/// The tokens of a round are both tokens of each of its markets, the upper one first.
pub proof fn law_a_round_has_two_tokens_a_market(markets: Seq<CryptoMarketModel>, i: int)
    requires
        0 <= i < markets.len(),
    ensures
        entries::round_tokens(markets).len() == 2 * markets.len(),
        entries::round_tokens(markets)[2 * i] == markets[i].up_token_id,
        entries::round_tokens(markets)[2 * i + 1] == markets[i].down_token_id,
    decreases markets.len(),
{
    let front = markets.drop_last();
    lemma_round_length(front);
    if i < front.len() {
        law_a_round_has_two_tokens_a_market(front, i);
        assert(front[i] == markets[i]);
    }
}

proof fn lemma_round_length(markets: Seq<CryptoMarketModel>)
    ensures
        entries::round_tokens(markets).len() == 2 * markets.len(),
    decreases markets.len(),
{
    if markets.len() > 0 {
        lemma_round_length(markets.drop_last());
    }
}

/// An event is archived under its own instant where it has one.
pub proof fn law_an_event_is_archived_when_it_was(own_ms: i64, now_ms: i64)
    ensures
        own_ms > 0 ==> entries::archived_at(own_ms, now_ms) == own_ms,
        own_ms <= 0 ==> entries::archived_at(own_ms, now_ms) == now_ms,
{
}

// ---------------------------------------------------------------------------------------------
// Entries

/// An entry is admitted just where it stays within every cap that holds of it: what all strategies hold
/// with it added within the portfolio's, and its own strategy's positions and their cost within the
/// strategy's. The portfolio's cap is named first.
pub proof fn law_an_entry_stays_within_every_cap(
    m: CoreModel,
    q: OrderRequestModel,
    positions: Seq<OpenPosition>,
)
    requires
        m.config.risk.max_open_notional_usd@ > 0 ==> limits::plain_exposure(
            limits::costs(positions),
            q,
        ),
        m.config.strategy_limits.dom().contains(q.strategy)
            && m.config.strategy_limits[q.strategy].max_open_notional_usd is Some
            ==> limits::plain_exposure(limits::costs(limits::held_by(positions, q.strategy)), q),
    ensures
        ({
            let u = decimal::one_unit();
            let cap = m.config.risk.max_open_notional_usd;
            let within = cap@ > 0 ==> limits::invested(positions) * u + q.price@ * q.size@ <= cap@
                * u;
            let own = m.config.strategy_limits.dom().contains(q.strategy) ==> {
                let limit = m.config.strategy_limits[q.strategy];
                &&& limit.max_open_positions matches Some(most) ==> limits::count_by(
                    positions,
                    q.strategy,
                ) < most
                &&& limit.max_open_notional_usd matches Some(c) ==> limits::invested_by(
                    positions,
                    q.strategy,
                ) * u + q.price@ * q.size@ <= c@ * u
            };
            &&& entries::limit_refusal(m, q, positions) is None <==> within && own
            &&& !within ==> (entries::limit_refusal(m, q, positions) matches Some(x) && x.0
                == "limit.portfolioNotionalCap"@)
        }),
{
    limits::law_the_portfolio_stays_within_its_cap(
        m.config.risk.max_open_notional_usd,
        positions,
        limits::costs(positions),
        q,
    );
    if m.config.strategy_limits.dom().contains(q.strategy) {
        limits::law_a_strategy_stays_within_its_caps(
            m.config.strategy_limits[q.strategy],
            positions,
            q,
        );
    }
}

/// How often a cause was counted.
pub open spec fn times(causes: Map<Seq<char>, u64>, cause: Seq<char>) -> int {
    if causes.dom().contains(cause) {
        causes[cause] as int
    } else {
        0
    }
}

/// An entry counts once for what became of it: as placed, as refused by a cap, or as refused on its
/// way, the latter two under their cause and under no other.
pub proof fn law_an_entry_counts_for_what_became_of_it(
    m: CoreModel,
    strategy: Seq<char>,
    bucket: Seq<char>,
    other: Seq<char>,
)
    requires
        entries::counters_ok(m, strategy),
        other != bucket,
    ensures
        ({
            let was = service::accounting_of(m, strategy);
            let placed = service::accounting_of(entries::placed_counted(m, strategy), strategy);
            let capped = service::accounting_of(
                entries::limit_counted(m, strategy, bucket),
                strategy,
            );
            let refused = service::accounting_of(
                entries::entry_refusal_counted(m, strategy, bucket),
                strategy,
            );
            &&& placed.placed == was.placed + 1
            &&& placed.rejected == was.rejected
            &&& placed.limit_rejected == was.limit_rejected
            &&& capped.limit_rejected == was.limit_rejected + 1
            &&& capped.placed == was.placed
            &&& capped.rejected == was.rejected
            &&& times(capped.rejection_causes, bucket) == times(was.rejection_causes, bucket) + 1
            &&& times(capped.rejection_causes, other) == times(was.rejection_causes, other)
            &&& refused.rejected == was.rejected + 1
            &&& refused.placed == was.placed
            &&& refused.limit_rejected == was.limit_rejected
            &&& times(refused.rejection_causes, bucket) == times(was.rejection_causes, bucket) + 1
            &&& times(refused.rejection_causes, other) == times(was.rejection_causes, other)
            &&& entries::limit_counted(m, strategy, bucket).stats.strategy_limit_rejected
                == m.stats.strategy_limit_rejected + 1
            &&& entries::entry_refusal_counted(m, strategy, bucket).stats.place_rejected
                == m.stats.place_rejected + 1
            &&& entries::placed_counted(m, strategy).stats == m.stats
        }),
{
    let was = service::accounting_of(m, strategy);
    assert(was.rejection_causes.dom().contains(bucket) ==> was.rejection_causes[bucket] < u64::MAX);
}

/// A refusal by the breaker is counted as the breaker's, whichever strategy it holds and until when.
pub proof fn law_the_breakers_refusals_are_counted_as_its_own(
    until_ms: i64,
    q: OrderRequestModel,
)
    ensures
        placing::breaker_refusal(Some(until_ms), q) is Some,
        rejections::rejection_label(placing::breaker_refusal(Some(until_ms), q)->0.message)
            == "risk:breaker"@,
{
    let msg = placing::breaker_refusal(Some(until_ms), q)->0.message;
    reveal_strlit("breaker active until ");
    reveal_strlit("breaker active until");
    let part = "breaker active until"@;
    assert(msg.subrange(0, part.len() as int) =~= part) by {
        assert("breaker active until "@.take(part.len() as int) =~= part);
        assert forall|i: int| 0 <= i < part.len() implies #[trigger] msg[i] == part[i] by {
            assert(msg[i] == "breaker active until "@[i]);
        }
    }
    assert(text::occurs_at(msg, part, 0));
}

// ---------------------------------------------------------------------------------------------
// The reasons of closes in flight

proof fn lemma_reason_at(s: Seq<(Seq<char>, ExitReason)>, i: int)
    requires
        exit_reasons::tokens_differ(s),
        0 <= i < s.len(),
    ensures
        exit_reasons::reason_of(s, s[i].0) == Some(s[i].1),
{
    exit_reasons::lemma_place_of(s, s[i].0);
    let k = exit_reasons::place_of(s, s[i].0)->0;
    if k != i {
        assert(s[k].0 != s[i].0);
    }
}

/// Forgetting the reason of one token forgets no other's.
pub proof fn law_a_reason_that_goes_takes_no_other_along(
    m: ReasonsModel,
    token: Seq<char>,
    other: Seq<char>,
)
    requires
        exit_reasons::reasons_inv(m),
        other != token,
    ensures
        exit_reasons::reason_of(exit_reasons::clear_step(m, token).entries, other)
            == exit_reasons::reason_of(m.entries, other),
        exit_reasons::clear_step(m, token).evicted == m.evicted,
        exit_reasons::clear_step(m, token).swept == m.swept,
{
    let s = m.entries;
    let after = exit_reasons::clear_step(m, token).entries;
    exit_reasons::lemma_place_of(s, token);
    exit_reasons::lemma_place_of(s, other);
    exit_reasons::lemma_place_of(after, other);
    if exit_reasons::place_of(s, token) is Some {
        let i = exit_reasons::place_of(s, token)->0;
        assert(exit_reasons::tokens_differ(after)) by {
            assert forall|a: int, b: int|
                0 <= a < after.len() && 0 <= b < after.len() && a != b implies (
            #[trigger] after[a]).0 != (#[trigger] after[b]).0 by {
                let x = if a < i {
                    a
                } else {
                    a + 1
                };
                let y = if b < i {
                    b
                } else {
                    b + 1
                };
                assert(after[a] == s[x] && after[b] == s[y]);
                assert(s[x].0 != s[y].0);
            }
        }
        match exit_reasons::place_of(s, other) {
            Some(k) => {
                let x = if k < i {
                    k
                } else {
                    k - 1
                };
                assert(after[x] == s[k]);
                lemma_reason_at(after, x);
            },
            None => {
                if exit_reasons::place_of(after, other) is Some {
                    let k = exit_reasons::place_of(after, other)->0;
                    let x = if k < i {
                        k
                    } else {
                        k + 1
                    };
                    assert(after[k] == s[x]);
                }
            },
        }
    }
}

/// A reason that is noted changes no other token's while there is room.
pub proof fn law_a_reason_that_is_noted_changes_no_other(
    m: ReasonsModel,
    token: Seq<char>,
    reason: ExitReason,
    open: Seq<Seq<char>>,
    other: Seq<char>,
)
    requires
        exit_reasons::reasons_inv(m),
        other != token,
        m.entries.len() < exit_reasons::EXIT_REASON_TABLE_MAX,
    ensures
        exit_reasons::reason_of(exit_reasons::note_step(m, token, reason, open).entries, other)
            == exit_reasons::reason_of(m.entries, other),
        exit_reasons::reason_of(exit_reasons::note_step(m, token, reason, open).entries, token)
            == Some(reason),
        exit_reasons::note_step(m, token, reason, open).evicted == m.evicted,
{
    exit_reasons::lemma_place_of(m.entries, token);
    exit_reasons::law_the_newest_reason_is_found(m, token, reason, open);
    let s = m.entries;
    let after = exit_reasons::note_step(m, token, reason, open).entries;
    exit_reasons::lemma_place_of(s, token);
    exit_reasons::lemma_place_of(s, other);
    exit_reasons::lemma_place_of(after, other);
    match exit_reasons::place_of(s, token) {
        Some(i) => {
            assert(exit_reasons::tokens_differ(after)) by {
                assert forall|a: int, b: int|
                    0 <= a < after.len() && 0 <= b < after.len() && a != b implies (
                #[trigger] after[a]).0 != (#[trigger] after[b]).0 by {
                    assert(after[a].0 == s[a].0 && after[b].0 == s[b].0);
                    assert(s[a].0 != s[b].0);
                }
            }
        },
        None => {
            assert(exit_reasons::tokens_differ(after)) by {
                assert forall|a: int, b: int|
                    0 <= a < after.len() && 0 <= b < after.len() && a != b implies (
                #[trigger] after[a]).0 != (#[trigger] after[b]).0 by {
                    if a < s.len() {
                        assert(after[a] == s[a]);
                    }
                    if b < s.len() {
                        assert(after[b] == s[b]);
                    }
                }
            }
        },
    }
    match exit_reasons::place_of(s, other) {
        Some(k) => {
            assert(after[k] == s[k]);
            lemma_reason_at(after, k);
        },
        None => {
            if exit_reasons::place_of(after, other) is Some {
                let k = exit_reasons::place_of(after, other)->0;
                if k < s.len() {
                    assert(s[k].0 == after[k].0);
                }
            }
        },
    }
}

/// A full table gives up the oldest close whose position is gone, and the oldest of all only where none
/// is gone.
pub proof fn law_the_oldest_orphan_gives_way(
    s: Seq<(Seq<char>, ExitReason)>,
    open: Seq<Seq<char>>,
)
    requires
        s.len() > 0,
    ensures
        ({
            let v = exit_reasons::victim(s, open);
            &&& 0 <= v < s.len()
            &&& (exists|i: int| 0 <= i < s.len() && !open.contains((#[trigger] s[i]).0)) ==> {
                &&& !open.contains(s[v].0)
                &&& forall|j: int| 0 <= j < v ==> open.contains((#[trigger] s[j]).0)
            }
            &&& (forall|i: int| 0 <= i < s.len() ==> open.contains((#[trigger] s[i]).0)) ==> v == 0
        }),
{
    exit_reasons::lemma_first_ghost(s, open);
}

/// A sweep keeps the reasons of the tokens that are held and drops every other, and counts what it
/// drops.
pub proof fn law_a_sweep_keeps_the_reasons_of_what_is_held(
    m: ReasonsModel,
    open: Seq<Seq<char>>,
    token: Seq<char>,
)
    requires
        exit_reasons::reasons_inv(m),
        m.swept + m.entries.len() <= u64::MAX,
    ensures
        exit_reasons::reason_of(exit_reasons::sweep_step(m, open).entries, token)
            == if open.contains(token) {
            exit_reasons::reason_of(m.entries, token)
        } else {
            None
        },
        exit_reasons::sweep_step(m, open).swept + exit_reasons::sweep_step(m, open).entries.len()
            == m.swept + m.entries.len(),
{
    lemma_kept_reasons(m.entries, open, token);
}

proof fn lemma_kept_reasons(
    s: Seq<(Seq<char>, ExitReason)>,
    open: Seq<Seq<char>>,
    token: Seq<char>,
)
    ensures
        exit_reasons::reason_of(exit_reasons::kept(s, open), token) == if open.contains(token) {
            exit_reasons::reason_of(s, token)
        } else {
            None
        },
        exit_reasons::kept(s, open).len() <= s.len(),
    decreases s.len(),
{
    if s.len() > 0 {
        let front = s.drop_last();
        lemma_kept_reasons(front, open, token);
        let rest = exit_reasons::kept(front, open);
        let all = exit_reasons::kept(s, open);
        assert(rest.push(s.last()).drop_last() =~= rest);
        exit_reasons::lemma_place_of(front, token);
        exit_reasons::lemma_place_of(rest, token);
        if exit_reasons::place_of(front, token) is Some {
            let i = exit_reasons::place_of(front, token)->0;
            assert(s[i] == front[i]);
        }
        if exit_reasons::place_of(rest, token) is Some {
            let i = exit_reasons::place_of(rest, token)->0;
            assert(rest.push(s.last())[i] == rest[i]);
        }
    }
}

/// What the panel shows of the table adds up: what it holds and how much of that no open position
/// answers for.
pub proof fn law_the_reasons_shown_add_up(
    v: ExitReasonsView,
    m: ReasonsModel,
    open: Seq<Seq<char>>,
)
    requires
        exit_reasons::shows_reasons(v, m, open),
    ensures
        v.tracked_count == m.entries.len(),
        v.capacity == exit_reasons::EXIT_REASON_TABLE_MAX,
        v.evicted_total == m.evicted,
        v.swept_total == m.swept,
        v.orphaned == m.entries.len() - exit_reasons::sweep_step(m, open).entries.len(),
        v.orphaned == 0 <==> forall|i: int|
            0 <= i < m.entries.len() ==> open.contains((#[trigger] m.entries[i]).0),
{
    lemma_kept_whole(m.entries, open);
}

proof fn lemma_kept_whole(s: Seq<(Seq<char>, ExitReason)>, open: Seq<Seq<char>>)
    ensures
        exit_reasons::kept(s, open).len() <= s.len(),
        exit_reasons::kept(s, open).len() == s.len() <==> forall|i: int|
            0 <= i < s.len() ==> open.contains((#[trigger] s[i]).0),
    decreases s.len(),
{
    if s.len() > 0 {
        let front = s.drop_last();
        lemma_kept_whole(front, open);
        assert(s[s.len() - 1] == s.last());
        if forall|i: int| 0 <= i < s.len() ==> open.contains((#[trigger] s[i]).0) {
            assert forall|i: int| 0 <= i < front.len() implies open.contains(
                (#[trigger] front[i]).0,
            ) by {
                assert(s[i] == front[i]);
            }
        }
        if exit_reasons::kept(s, open).len() == s.len() {
            assert forall|i: int| 0 <= i < s.len() implies open.contains((#[trigger] s[i]).0) by {
                if i < front.len() {
                    assert(front[i] == s[i]);
                }
            }
        }
    }
}

// ---------------------------------------------------------------------------------------------
// Starting over

/// A log stands where the settings say; without a word of theirs beside the order log, and nowhere
/// where there is none.
pub proof fn law_a_log_stands_where_it_is_told(
    explicit: Option<Seq<char>>,
    order_log: Option<Seq<char>>,
    beside: Option<Seq<char>>,
)
    ensures
        explicit matches Some(p) ==> lifecycle::side_log(explicit, order_log, beside) == Some(p),
        explicit is None && order_log is Some ==> lifecycle::side_log(explicit, order_log, beside)
            == beside,
        explicit is None && order_log is None ==> lifecycle::side_log(
            explicit,
            order_log,
            beside,
        ) is None,
{
}

/// A kernel starts with what it was told and nothing else: its settings and its settlements, no error,
/// no order, no wish and no count; its first order is the first one.
pub proof fn law_a_kernel_starts_afresh(config: CoreConfigModel, book: BookModel, now_ms: i64)
    ensures
        ({
            let m = lifecycle::started(config, book, now_ms);
            &&& m.config == config
            &&& m.settlement == book
            &&& m.started_at_ms == now_ms
            &&& m.kill_reason is None
            &&& m.last_error is None
            &&& m.last_self_check is None
            &&& m.venue_free is None
            &&& m.next_id == 1
            &&& m.recon_watermark_ms == 0
            &&& m.consecutive_venue_rejects == 0
            &&& m.consecutive_sweep_failures == 0
            &&& m.exit_reasons.entries.len() == 0
            &&& m.strategy_exits.len() == 0
            &&& m.pending_venue_cancels.len() == 0
            &&& m.close_credentials.len() == 0
            &&& !m.audit.halted
            &&& m.audit.anchor is None
            &&& m.audit.runs == 0
            &&& m.audit.failures == 0
            &&& m.stats.books == 0 && m.stats.tops == 0 && m.stats.spots == 0 && m.stats.rounds == 0
            &&& m.stats.evaluations == 0 && m.stats.signals == 0 && m.stats.place_rejected == 0
            &&& m.stats.strategy_limit_rejected == 0 && m.stats.venue_rejected == 0
            &&& forall|k: Seq<char>|
                !(#[trigger] m.strategy_accounting.dom().contains(k))
            &&& forall|k: Seq<char>| !(#[trigger] m.place_cooldowns.dom().contains(k))
            &&& forall|k: Seq<char>| !(#[trigger] m.books.dom().contains(k))
            &&& forall|k: Seq<char>| !(#[trigger] m.escalation_skips.contains(k))
        }),
{
}

/// A kernel that fills by itself opens with the seed of its settings, and a live one with what the venue
/// will report.
pub proof fn law_a_live_kernel_has_no_seed(c: CoreConfigModel)
    ensures
        c.mode == Mode::Live ==> lifecycle::seed(c) is None,
        c.mode != Mode::Live ==> lifecycle::seed(c) == Some(c.dry_seed_balance),
{
}

/// The orders that are taken up again are those that still work, all of them.
pub proof fn law_the_working_orders_are_taken_up_again(orders: Seq<TrackedOrderModel>)
    ensures
        forall|i: int|
            0 <= i < orders.len() && (#[trigger] orders[i]).live ==> lifecycle::working(
                orders,
            ).contains(orders[i]),
        forall|i: int|
            0 <= i < lifecycle::working(orders).len() ==> (#[trigger] lifecycle::working(
                orders,
            )[i]).live && orders.contains(lifecycle::working(orders)[i]),
    decreases orders.len(),
{
    if orders.len() > 0 {
        let front = orders.drop_last();
        law_the_working_orders_are_taken_up_again(front);
        let rest = lifecycle::working(front);
        let all = lifecycle::working(orders);
        assert forall|i: int| 0 <= i < orders.len() && (#[trigger] orders[i]).live implies all.contains(
            orders[i],
        ) by {
            if i < front.len() {
                assert(front[i] == orders[i]);
                assert(rest.contains(front[i]));
                let j = choose|j: int| 0 <= j < rest.len() && rest[j] == front[i];
                assert(all[j] == rest[j]);
            } else {
                assert(all[all.len() - 1] == orders[i]);
            }
        }
        assert forall|i: int| 0 <= i < all.len() implies (#[trigger] all[i]).live
            && orders.contains(all[i]) by {
            if i < rest.len() {
                assert(all[i] == rest[i]);
                assert(front.contains(rest[i]));
                let j = choose|j: int| 0 <= j < front.len() && front[j] == rest[i];
                assert(orders[j] == front[j]);
            } else {
                assert(orders[orders.len() - 1] == all[i]);
            }
        }
    }
}

proof fn lemma_live_buys(orders: Seq<TrackedOrderModel>)
    ensures
        forall|i: int|
            0 <= i < orders.len() && (#[trigger] orders[i]).live && orders[i].side == Side::Buy
                ==> audit::live_buys(orders).contains(orders[i]),
        forall|i: int|
            0 <= i < audit::live_buys(orders).len() ==> (#[trigger] audit::live_buys(orders)[i]).live
                && audit::live_buys(orders)[i].side == Side::Buy && orders.contains(
                audit::live_buys(orders)[i],
            ),
    decreases orders.len(),
{
    if orders.len() > 0 {
        let front = orders.drop_last();
        lemma_live_buys(front);
        let rest = audit::live_buys(front);
        let all = audit::live_buys(orders);
        assert forall|i: int|
            0 <= i < orders.len() && (#[trigger] orders[i]).live && orders[i].side
                == Side::Buy implies all.contains(orders[i]) by {
            if i < front.len() {
                assert(front[i] == orders[i]);
                assert(rest.contains(front[i]));
                let j = choose|j: int| 0 <= j < rest.len() && rest[j] == front[i];
                assert(all[j] == rest[j]);
            } else {
                assert(all[all.len() - 1] == orders[i]);
            }
        }
        assert forall|i: int| 0 <= i < all.len() implies (#[trigger] all[i]).live && all[i].side
            == Side::Buy && orders.contains(all[i]) by {
            if i < rest.len() {
                assert(all[i] == rest[i]);
                assert(front.contains(rest[i]));
                let j = choose|j: int| 0 <= j < front.len() && front[j] == rest[i];
                assert(orders[j] == front[j]);
            } else {
                assert(orders[orders.len() - 1] == all[i]);
            }
        }
    }
}

/// Every working buy that is taken up again has what is left of it reserved again, under its own id, and
/// nothing else has anything reserved.
pub proof fn law_a_working_buy_is_reserved_for_again(orders: Seq<TrackedOrderModel>, i: int)
    requires
        0 <= i < orders.len(),
        forall|j: int|
            0 <= j < orders.len() && (#[trigger] orders[j]).live && orders[j].side == Side::Buy
                ==> cash_laws::plain_commitment(orders[j]),
    ensures
        orders[i].live && orders[i].side == Side::Buy ==> exists|k: int|
            0 <= k < lifecycle::reservations(orders).len() && (
            #[trigger] lifecycle::reservations(orders)[k]).0 == orders[i].order_id
                && lifecycle::reservations(orders)[k].1@ * decimal::one_unit()
                == cash_laws::still_commits(orders[i]),
        forall|k: int|
            0 <= k < lifecycle::reservations(orders).len() ==> audit::buys_as(
                orders,
                (#[trigger] lifecycle::reservations(orders)[k]).0,
            ),
{
    lemma_live_buys(orders);
    let buys = audit::live_buys(orders);
    let rows = lifecycle::reservations(orders);
    if orders[i].live && orders[i].side == Side::Buy {
        assert(buys.contains(orders[i]));
        let k = choose|k: int| 0 <= k < buys.len() && buys[k] == orders[i];
        cash_laws::law_what_is_left_is_what_has_not_filled(orders[i]);
        assert(rows[k].0 == orders[i].order_id);
    }
    assert forall|k: int| 0 <= k < rows.len() implies audit::buys_as(
        orders,
        (#[trigger] rows[k]).0,
    ) by {
        assert(buys[k].live);
        let j = choose|j: int| 0 <= j < orders.len() && orders[j] == buys[k];
        assert(orders[j].order_id == rows[k].0);
    }
}

// ---------------------------------------------------------------------------------------------
// The maintenance pass

proof fn lemma_taken(a: Seq<TickStep>, step: TickStep, takes: bool, x: TickStep)
    ensures
        (a + maintenance::taken(step, takes)).contains(x) <==> a.contains(x) || (takes && x == step),
{
    let all = a + maintenance::taken(step, takes);
    if a.contains(x) {
        let i = choose|i: int| 0 <= i < a.len() && a[i] == x;
        assert(all[i] == x);
    }
    if takes && x == step {
        assert(all[a.len() as int] == x);
    }
    if all.contains(x) && !a.contains(x) {
        let i = choose|i: int| 0 <= i < all.len() && all[i] == x;
        if i < a.len() {
            assert(a[i] == x);
        }
    }
}

/// A maintenance pass leaves nothing out: it settles where the kernel settles by itself, audits where an
/// audit is due, writes what is to be written, and always retries fills, tells of silence, lets
/// strategies enter again, rolls the day, checks the exits and crosses with what rested for too long.
pub proof fn law_a_pass_leaves_nothing_out(m: CoreModel, now_ms: i64)
    ensures
        ({
            let s = maintenance::tick_steps(m, now_ms);
            &&& s.contains(TickStep::FlushArchive) <==> m.config.event_archive_path is Some
            &&& s.contains(TickStep::RetryFills)
            &&& s.contains(TickStep::Settle) <==> m.config.mode != Mode::Live
            &&& s.contains(TickStep::TellSilence)
            &&& s.contains(TickStep::Audit) <==> m.config.audit_interval_sec > 0 && (
            m.audit.last_at_ms == 0 || now_ms - m.audit.last_at_ms >= m.config.audit_interval_sec
                * 1000)
            &&& s.contains(TickStep::ResumeEntries)
            &&& s.contains(TickStep::SaveNearMisses) <==> m.config.near_miss_path is Some
            &&& s.contains(TickStep::RollDay)
            &&& s.contains(TickStep::TellTrip)
            &&& s.contains(TickStep::CheckExits)
            &&& s.contains(TickStep::TellWithheldStops)
            &&& s.contains(TickStep::Escalate)
        }),
{
    lemma_pass(m, now_ms, TickStep::FlushArchive);
    lemma_pass(m, now_ms, TickStep::RetryFills);
    lemma_pass(m, now_ms, TickStep::Settle);
    lemma_pass(m, now_ms, TickStep::TellSilence);
    lemma_pass(m, now_ms, TickStep::Audit);
    lemma_pass(m, now_ms, TickStep::ResumeEntries);
    lemma_pass(m, now_ms, TickStep::SaveNearMisses);
    let early = maintenance::early_steps(m, now_ms);
    let late = maintenance::late_steps();
    let s = maintenance::tick_steps(m, now_ms);
    let n = early.len() as int;
    assert(s[n] == late[0] && late[0] == TickStep::RollDay);
    assert(s[n + 1] == late[1] && late[1] == TickStep::TellTrip);
    assert(s[n + 2] == late[2] && late[2] == TickStep::CheckExits);
    assert(s[n + 3] == late[3] && late[3] == TickStep::TellWithheldStops);
    assert(s[n + 4] == late[4] && late[4] == TickStep::Escalate);
}

proof fn lemma_pass(m: CoreModel, now_ms: i64, x: TickStep)
    requires
        x != TickStep::RollDay,
        x != TickStep::TellTrip,
        x != TickStep::CheckExits,
        x != TickStep::TellWithheldStops,
        x != TickStep::Escalate,
    ensures
        maintenance::tick_steps(m, now_ms).contains(x) <==> {
            ||| x == TickStep::FlushArchive && m.config.event_archive_path is Some
            ||| x == TickStep::RetryFills
            ||| x == TickStep::Settle && m.config.mode != Mode::Live
            ||| x == TickStep::TellSilence
            ||| x == TickStep::Audit && audit::is_due(m, now_ms)
            ||| x == TickStep::ResumeEntries
            ||| x == TickStep::SaveNearMisses && m.config.near_miss_path is Some
        },
{
    let a0 = Seq::<TickStep>::empty();
    let a1 = a0 + maintenance::taken(
        TickStep::FlushArchive,
        m.config.event_archive_path is Some,
    );
    let a2 = a1 + maintenance::taken(TickStep::RetryFills, true);
    let a3 = a2 + maintenance::taken(TickStep::Settle, m.config.mode.is_local());
    let a4 = a3 + maintenance::taken(TickStep::TellSilence, true);
    let a5 = a4 + maintenance::taken(TickStep::Audit, audit::is_due(m, now_ms));
    let a6 = a5 + maintenance::taken(TickStep::ResumeEntries, true);
    let a7 = a6 + maintenance::taken(TickStep::SaveNearMisses, m.config.near_miss_path is Some);
    lemma_taken(a0, TickStep::FlushArchive, m.config.event_archive_path is Some, x);
    lemma_taken(a1, TickStep::RetryFills, true, x);
    lemma_taken(a2, TickStep::Settle, m.config.mode.is_local(), x);
    lemma_taken(a3, TickStep::TellSilence, true, x);
    lemma_taken(a4, TickStep::Audit, audit::is_due(m, now_ms), x);
    lemma_taken(a5, TickStep::ResumeEntries, true, x);
    lemma_taken(a6, TickStep::SaveNearMisses, m.config.near_miss_path is Some, x);
    assert(!a0.contains(x));
    assert(maintenance::early_steps(m, now_ms) == a7);
    let late = maintenance::late_steps();
    let s = maintenance::tick_steps(m, now_ms);
    if a7.contains(x) {
        let i = choose|i: int| 0 <= i < a7.len() && a7[i] == x;
        assert(s[i] == x);
    }
    if s.contains(x) {
        let i = choose|i: int| 0 <= i < s.len() && s[i] == x;
        if i < a7.len() {
            assert(a7[i] == x);
        } else {
            assert(s[i] == late[i - a7.len()]);
        }
    }
}

proof fn lemma_repairs(repairs: Seq<Repair>)
    ensures
        maintenance::repairs_of(repairs, Repair::FilledGap) + maintenance::repairs_of(
            repairs,
            Repair::MarkedFilled,
        ) + maintenance::repairs_of(repairs, Repair::MarkedCancelled) + maintenance::repairs_of(
            repairs,
            Repair::Other,
        ) == repairs.len(),
    decreases repairs.len(),
{
    if repairs.len() > 0 {
        lemma_repairs(repairs.drop_last());
    }
}

/// A sweep that found something is told, and one that found nothing is not; every repair is counted
/// once, under its own sort.
pub proof fn law_a_sweep_that_found_something_is_told(report: SweepReport, more: Repair, sort: Repair)
    ensures
        maintenance::sweep_events(report).len() == if report.repairs@.len() > 0
            || report.ghost_ids@.len() > 0 || report.external_fills > 0 {
            1int
        } else {
            0
        },
        maintenance::repairs_of(report.repairs@, Repair::FilledGap) + maintenance::repairs_of(
            report.repairs@,
            Repair::MarkedFilled,
        ) + maintenance::repairs_of(report.repairs@, Repair::MarkedCancelled)
            + maintenance::repairs_of(report.repairs@, Repair::Other) == report.repairs@.len(),
        maintenance::repairs_of(report.repairs@.push(more), sort) == maintenance::repairs_of(
            report.repairs@,
            sort,
        ) + if more == sort {
            1int
        } else {
            0
        },
{
    lemma_repairs(report.repairs@);
    assert(report.repairs@.push(more).drop_last() =~= report.repairs@);
}

// ---------------------------------------------------------------------------------------------
// Strategies that come and go

proof fn lemma_count_by(positions: Seq<OpenPosition>, strategy: Seq<char>)
    ensures
        strategies::held_count(positions, strategy) > 0 <==> exists|i: int|
            0 <= i < positions.len() && (#[trigger] positions[i]).strategy@ == strategy,
    decreases positions.len(),
{
    if positions.len() > 0 {
        let front = positions.drop_last();
        lemma_count_by(front, strategy);
        assert(positions[positions.len() - 1] == positions.last());
        if exists|i: int| 0 <= i < front.len() && (#[trigger] front[i]).strategy@ == strategy {
            let i = choose|i: int|
                0 <= i < front.len() && (#[trigger] front[i]).strategy@ == strategy;
            assert(positions[i] == front[i]);
        }
        if exists|i: int|
            0 <= i < positions.len() && (#[trigger] positions[i]).strategy@ == strategy {
            let i = choose|i: int|
                0 <= i < positions.len() && (#[trigger] positions[i]).strategy@ == strategy;
            if i < front.len() {
                assert(front[i] == positions[i]);
            }
        }
    }
}

/// A strategy may go just where it holds nothing; and it is replaced just where it is there, holds
/// nothing, and the new library loaded under its very name.
pub proof fn law_a_strategy_goes_where_it_holds_nothing(
    name: Seq<char>,
    known: bool,
    positions: Seq<OpenPosition>,
    staged: Result<Seq<char>, Seq<char>>,
)
    ensures
        strategies::unload_refusal(name, positions) is None <==> forall|i: int|
            0 <= i < positions.len() ==> (#[trigger] positions[i]).strategy@ != name,
        strategies::reload_refusal(name, known, positions, staged) is None <==> {
            &&& known
            &&& forall|i: int|
                0 <= i < positions.len() ==> (#[trigger] positions[i]).strategy@ != name
            &&& staged == Ok::<Seq<char>, Seq<char>>(name)
        },
{
    lemma_count_by(positions, name);
}

/// A word is a verdict in its short form or its long one, and no word is two verdicts.
pub proof fn law_a_word_is_one_verdict(word: Seq<char>)
    ensures
        strategies::decision_named(word) == Some(Decision::Accept) <==> word == "accept"@ || word
            == "accepted"@,
        strategies::decision_named(word) == Some(Decision::Reject) <==> word == "reject"@ || word
            == "rejected"@,
        strategies::decision_named(word) == Some(Decision::Defer) <==> word == "defer"@ || word
            == "deferred"@,
{
    reveal_strlit("accept");
    reveal_strlit("accepted");
    reveal_strlit("reject");
    reveal_strlit("rejected");
    reveal_strlit("defer");
    reveal_strlit("deferred");
    assert("accept"@[0] == 'a' && "accepted"@[0] == 'a');
    assert("reject"@[0] == 'r' && "rejected"@[0] == 'r');
    assert("defer"@[0] == 'd' && "deferred"@[0] == 'd');
}

} // verus!
