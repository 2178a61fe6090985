//! What closing a position comes to: which closes are asked for, at what price, and what becomes of
//! one that is refused.
use vstd::prelude::*;

use crate::decimal;
use crate::decimal::Decimal;
use crate::exits;
use crate::exits::{ExitJobModel, ExitRequestModel};
use crate::model::{
    ExitReason, FillPolicy, OpenPosition, OrderStatus, Side, SignalDirection, TrackedOrderModel,
};
use crate::rejections;
use crate::rejections::RejectCooldownModel;
use crate::service::{CoreModel, StrategyExitIntentModel};
use crate::text;

verus! {

// ---------------------------------------------------------------------------------------------
// Prices

/// A price is where the market is: the position's latest price, or one cent where it has none.
pub open spec fn at_the_market(price: Decimal, p: OpenPosition) -> bool {
    &&& p.current_price@ > 0 ==> price == p.current_price
    &&& p.current_price@ <= 0 ==> 100 * price@ == decimal::one_unit()
}

proof fn lemma_cents(n: i128)
    ensures
        100 * Decimal::of((n, 2))@ == n * decimal::one_unit(),
{
    decimal::lemma_parts_of((n, 2));
    let p = decimal::pow10(26);
    assert(100 * p == decimal::one_unit()) by {
        reveal_with_fuel(decimal::pow10, 29);
    }
    assert(100 * (n * p) == n * (100 * p)) by (nonlinear_arith);
}

/// A close at the market follows the market: it starts from what the position was last worth, and not
/// from what was paid for it.
pub proof fn law_a_close_follows_the_market(p: OpenPosition, q: OpenPosition)
    ensures
        at_the_market(exits::closing_price(p), p),
        p.current_price == q.current_price ==> exits::closing_price(p) == exits::closing_price(q),
{
    lemma_cents(1);
}

/// The limit of a taker's exit gives way by the slip and no more: it stands that many cents below the
/// bid, and at one cent where that would be lower. A slip that is not above zero gives way by nothing,
/// and a wider slip never stands higher.
pub proof fn law_an_exit_gives_way_by_its_slip(bid: Decimal, slip_ticks: i64, wider: i64)
    requires
        bid.well_formed(),
        bid@ > 0,
        bid.minus_plain(exits::ticks(slip_ticks)),
        bid.minus_plain(exits::ticks(wider)),
        slip_ticks <= wider,
    ensures
        ({
            let limit = exits::exit_limit(bid, slip_ticks);
            let cents = if slip_ticks > 0 {
                slip_ticks as int
            } else {
                0
            };
            let lowered = 100 * bid@ - cents * decimal::one_unit();
            &&& 100 * limit@ == if lowered > decimal::one_unit() {
                lowered
            } else {
                decimal::one_unit()
            }
            &&& exits::exit_limit(bid, wider)@ <= limit@
        }),
{
    let n: i128 = if slip_ticks > 0 {
        slip_ticks as i128
    } else {
        0
    };
    let w: i128 = if wider > 0 {
        wider as i128
    } else {
        0
    };
    lemma_cents(1);
    lemma_cents(n);
    lemma_cents(w);
    decimal::lemma_parts_of((n, 2));
    decimal::lemma_parts_of((w, 2));
    decimal::lemma_minus_plain(bid, exits::ticks(slip_ticks));
    decimal::lemma_minus_plain(bid, exits::ticks(wider));
    let u = decimal::one_unit();
    assert(n * u <= w * u) by (nonlinear_arith)
        requires
            n <= w,
            u > 0,
    ;
}

// ---------------------------------------------------------------------------------------------
// Which closes are asked for

/// A job is a close of a position.
pub open spec fn is_close_of(job: ExitJobModel, p: OpenPosition) -> bool {
    &&& job.position_id == p.id@
    &&& job.token_id == p.token_id@
    &&& job.condition_id == p.condition_id@
    &&& job.strategy == p.strategy@
    &&& job.asset == p.asset@
    &&& job.direction == p.direction
}

/// The exit policy asked for a close of an open position, at its price and for its reason.
pub open spec fn policy_asked(
    job: ExitJobModel,
    requests: Seq<ExitRequestModel>,
    positions: Seq<OpenPosition>,
) -> bool {
    exists|k: int, i: int|
        0 <= k < requests.len() && 0 <= i < positions.len() && is_close_of(
            job,
            #[trigger] positions[i],
        ) && (#[trigger] requests[k]).position_id == positions[i].id@ && job.price
            == requests[k].exit_price && job.reason == requests[k].reason && job.use_maker
            == requests[k].use_maker
}

/// A strategy wished for the close of an open position; it goes out at the market.
pub open spec fn strategy_asked(
    job: ExitJobModel,
    wishes: Seq<StrategyExitIntentModel>,
    positions: Seq<OpenPosition>,
) -> bool {
    exists|k: int, i: int|
        0 <= k < wishes.len() && 0 <= i < positions.len() && is_close_of(
            job,
            #[trigger] positions[i],
        ) && (#[trigger] wishes[k]).token_id == positions[i].token_id@ && at_the_market(
            job.price,
            positions[i],
        ) && job.reason == ExitReason::StrategySignal && !job.use_maker
}

/// A position is what an earlier close left over: its token was sold since it opened, and no order
/// sells it now.
pub open spec fn left_over(p: OpenPosition, orders: Seq<TrackedOrderModel>) -> bool {
    &&& forall|k: int|
        0 <= k < orders.len() && (#[trigger] orders[k]).token_id == p.token_id@ && orders[k].side
            == Side::Sell ==> !orders[k].live
    &&& exists|k: int|
        0 <= k < orders.len() && (#[trigger] orders[k]).token_id == p.token_id@ && orders[k].side
            == Side::Sell && orders[k].status == OrderStatus::Filled && orders[k].updated_at_ms
            >= p.entered_at_ms
}

/// A position was left over by an earlier close; it goes out at the market.
pub open spec fn left_over_goes(
    job: ExitJobModel,
    positions: Seq<OpenPosition>,
    orders: Seq<TrackedOrderModel>,
) -> bool {
    exists|i: int|
        0 <= i < positions.len() && is_close_of(job, #[trigger] positions[i]) && at_the_market(
            job.price,
            positions[i],
        ) && left_over(positions[i], orders) && job.reason == ExitReason::ForceExit
            && !job.use_maker
}

proof fn lemma_policy_asked(
    requests: Seq<ExitRequestModel>,
    positions: Seq<OpenPosition>,
    holders: Seq<Seq<char>>,
)
    ensures
        forall|n: int|
            0 <= n < exits::policy_jobs(requests, positions, holders).len() ==> policy_asked(
                #[trigger] exits::policy_jobs(requests, positions, holders)[n],
                requests,
                positions,
            ),
        forall|k: int|
            0 <= k < requests.len() && (match exits::position_by_id(
                positions,
                (#[trigger] requests[k]).position_id,
            ) {
                Some(i) => !holders.contains(positions[i].strategy@),
                None => false,
            }) ==> exits::has_job(
                exits::policy_jobs(requests, positions, holders),
                requests[k].position_id,
            ),
    decreases requests.len(),
{
    if requests.len() > 0 {
        let front = requests.drop_last();
        lemma_policy_asked(front, positions, holders);
        let rest = exits::policy_jobs(front, positions, holders);
        let all = exits::policy_jobs(requests, positions, holders);
        let q = requests.last();
        exits::lemma_position_by_id(positions, q.position_id);
        assert(requests[requests.len() - 1] == q);
        assert forall|n: int| 0 <= n < all.len() implies policy_asked(
            #[trigger] all[n],
            requests,
            positions,
        ) by {
            if n < rest.len() {
                assert(all[n] == rest[n]);
                assert(policy_asked(rest[n], front, positions));
                let (k, i) = choose|k: int, i: int|
                    0 <= k < front.len() && 0 <= i < positions.len() && is_close_of(
                        rest[n],
                        #[trigger] positions[i],
                    ) && (#[trigger] front[k]).position_id == positions[i].id@ && rest[n].price
                        == front[k].exit_price && rest[n].reason == front[k].reason
                        && rest[n].use_maker == front[k].use_maker;
                assert(requests[k] == front[k]);
                assert(is_close_of(all[n], positions[i]));
            } else {
                let i = exits::position_by_id(positions, q.position_id)->0;
                assert(is_close_of(all[n], positions[i]));
            }
        }
        assert forall|k: int|
            0 <= k < requests.len() && (match exits::position_by_id(
                positions,
                (#[trigger] requests[k]).position_id,
            ) {
                Some(i) => !holders.contains(positions[i].strategy@),
                None => false,
            }) implies exits::has_job(all, requests[k].position_id) by {
            if k < front.len() {
                assert(front[k] == requests[k]);
                let n = choose|n: int|
                    0 <= n < rest.len() && (#[trigger] rest[n]).position_id
                        == front[k].position_id;
                assert(all[n] == rest[n]);
            } else {
                assert(all[all.len() - 1].position_id == q.position_id);
            }
        }
    }
}

proof fn lemma_strategy_asked(
    jobs: Seq<ExitJobModel>,
    wishes: Seq<StrategyExitIntentModel>,
    positions: Seq<OpenPosition>,
)
    ensures
        exits::with_strategy_jobs(jobs, wishes, positions).len() >= jobs.len(),
        forall|n: int|
            0 <= n < jobs.len() ==> #[trigger] exits::with_strategy_jobs(
                jobs,
                wishes,
                positions,
            )[n] == jobs[n],
        forall|n: int|
            jobs.len() <= n < exits::with_strategy_jobs(jobs, wishes, positions).len()
                ==> strategy_asked(
                #[trigger] exits::with_strategy_jobs(jobs, wishes, positions)[n],
                wishes,
                positions,
            ),
        forall|k: int|
            0 <= k < wishes.len() ==> (exits::position_on(
                positions,
                (#[trigger] wishes[k]).token_id,
            ) matches Some(i) ==> exits::has_job(
                exits::with_strategy_jobs(jobs, wishes, positions),
                positions[i].id@,
            )),
    decreases wishes.len(),
{
    if wishes.len() > 0 {
        let front = wishes.drop_last();
        lemma_strategy_asked(jobs, front, positions);
        let rest = exits::with_strategy_jobs(jobs, front, positions);
        let all = exits::with_strategy_jobs(jobs, wishes, positions);
        let x = wishes.last();
        exits::lemma_position_on(positions, x.token_id);
        assert(wishes[wishes.len() - 1] == x);
        assert(all == rest || all == rest.push(all.last()));
        assert forall|n: int| 0 <= n < rest.len() implies #[trigger] all[n] == rest[n] by {}
        assert forall|n: int| jobs.len() <= n < all.len() implies strategy_asked(
            #[trigger] all[n],
            wishes,
            positions,
        ) by {
            if n < rest.len() {
                assert(strategy_asked(rest[n], front, positions));
                let (k, i) = choose|k: int, i: int|
                    0 <= k < front.len() && 0 <= i < positions.len() && is_close_of(
                        rest[n],
                        #[trigger] positions[i],
                    ) && (#[trigger] front[k]).token_id == positions[i].token_id@ && at_the_market(
                        rest[n].price,
                        positions[i],
                    ) && rest[n].reason == ExitReason::StrategySignal && !rest[n].use_maker;
                assert(wishes[k] == front[k]);
                assert(is_close_of(all[n], positions[i]));
            } else {
                let i = exits::position_on(positions, x.token_id)->0;
                law_a_close_follows_the_market(positions[i], positions[i]);
                assert(is_close_of(all[n], positions[i]));
            }
        }
        assert forall|k: int| 0 <= k < wishes.len() implies (exits::position_on(
            positions,
            (#[trigger] wishes[k]).token_id,
        ) matches Some(i) ==> exits::has_job(all, positions[i].id@)) by {
            if exits::position_on(positions, wishes[k].token_id) is Some {
                let i = exits::position_on(positions, wishes[k].token_id)->0;
                if k < front.len() {
                    assert(front[k] == wishes[k]);
                    assert(exits::has_job(rest, positions[i].id@));
                }
                if exits::has_job(rest, positions[i].id@) {
                    let n = choose|n: int|
                        0 <= n < rest.len() && (#[trigger] rest[n]).position_id == positions[i].id@;
                    assert(all[n] == rest[n]);
                } else {
                    assert(all[all.len() - 1].position_id == positions[i].id@);
                }
            }
        }
    }
}

proof fn lemma_left_over(p: OpenPosition, orders: Seq<TrackedOrderModel>)
    ensures
        left_over(p, orders) <==> !exits::sells_live(orders, p.token_id@) && exits::sold_since(
            orders,
            p.token_id@,
            p.entered_at_ms,
        ),
{
    if exits::sold_since(orders, p.token_id@, p.entered_at_ms) {
        let k = choose|k: int|
            0 <= k < orders.len() && exits::is_sold(
                #[trigger] orders[k],
                p.token_id@,
                p.entered_at_ms,
            );
        assert(orders[k].token_id == p.token_id@);
    }
    if exits::sells_live(orders, p.token_id@) {
        let k = choose|k: int|
            0 <= k < orders.len() && exits::is_live_sell(#[trigger] orders[k], p.token_id@);
        assert(orders[k].token_id == p.token_id@);
    }
    if left_over(p, orders) {
        let k = choose|k: int|
            0 <= k < orders.len() && (#[trigger] orders[k]).token_id == p.token_id@
                && orders[k].side == Side::Sell && orders[k].status == OrderStatus::Filled
                && orders[k].updated_at_ms >= p.entered_at_ms;
        assert(exits::is_sold(orders[k], p.token_id@, p.entered_at_ms));
    }
}

proof fn lemma_residual_goes(
    jobs: Seq<ExitJobModel>,
    positions: Seq<OpenPosition>,
    orders: Seq<TrackedOrderModel>,
    n: int,
)
    requires
        0 <= n <= positions.len(),
    ensures
        forall|k: int|
            0 <= k < exits::residual_jobs(jobs, positions, orders, n).len() ==> left_over_goes(
                #[trigger] exits::residual_jobs(jobs, positions, orders, n)[k],
                positions,
                orders,
            ),
        forall|i: int|
            0 <= i < n && left_over(#[trigger] positions[i], orders) && exits::position_by_id(
                positions,
                positions[i].id@,
            ) == Some(i) ==> exits::has_job(jobs, positions[i].id@) || exits::has_job(
                exits::residual_jobs(jobs, positions, orders, n),
                positions[i].id@,
            ),
    decreases n,
{
    if n > 0 {
        lemma_residual_goes(jobs, positions, orders, n - 1);
        let rest = exits::residual_jobs(jobs, positions, orders, n - 1);
        let all = exits::residual_jobs(jobs, positions, orders, n);
        let p = positions[n - 1];
        lemma_left_over(p, orders);
        law_a_close_follows_the_market(p, p);
        assert forall|k: int| 0 <= k < all.len() implies left_over_goes(
            #[trigger] all[k],
            positions,
            orders,
        ) by {
            if k < rest.len() {
                assert(all[k] == rest[k]);
                assert(left_over_goes(rest[k], positions, orders));
            } else {
                assert(is_close_of(all[k], positions[n - 1]));
            }
        }
        assert forall|i: int|
            0 <= i < n && left_over(#[trigger] positions[i], orders) && exits::position_by_id(
                positions,
                positions[i].id@,
            ) == Some(i) implies exits::has_job(jobs, positions[i].id@) || exits::has_job(
            all,
            positions[i].id@,
        ) by {
            if i < n - 1 {
                if exits::has_job(rest, positions[i].id@) {
                    let k = choose|k: int|
                        0 <= k < rest.len() && (#[trigger] rest[k]).position_id == positions[i].id@;
                    assert(all[k] == rest[k]);
                }
            } else if !exits::has_job(jobs, p.id@) {
                assert(all[all.len() - 1].position_id == p.id@);
            }
        }
    }
}

/// Nothing is closed that nobody asked to close: every exit is one that the exit policy asked for, at
/// the policy's price, one that a strategy wished for, or what an earlier close left over; the latter
/// two go out at the market. Where exits are not automatic, only a strategy's wish closes.
pub proof fn law_every_exit_was_asked_for(
    m: CoreModel,
    positions: Seq<OpenPosition>,
    requests: Seq<ExitRequestModel>,
    holders: Seq<Seq<char>>,
    orders: Seq<TrackedOrderModel>,
    n: int,
)
    requires
        0 <= n < exits::jobs_of(m, positions, requests, holders, orders).len(),
    ensures
        ({
            let job = exits::jobs_of(m, positions, requests, holders, orders)[n];
            ||| m.config.auto_exits_enabled && policy_asked(job, requests, positions)
            ||| strategy_asked(job, m.strategy_exits, positions)
            ||| m.config.auto_exits_enabled && left_over_goes(job, positions, orders)
        }),
{
    let spared = if m.config.mode.is_local() {
        holders
    } else {
        Seq::empty()
    };
    let policy = if m.config.auto_exits_enabled {
        exits::policy_jobs(requests, positions, spared)
    } else {
        Seq::empty()
    };
    lemma_policy_asked(requests, positions, spared);
    lemma_strategy_asked(policy, m.strategy_exits, positions);
    let wished = exits::with_strategy_jobs(policy, m.strategy_exits, positions);
    let left = exits::residual_jobs(wished, positions, orders, positions.len() as int);
    lemma_residual_goes(wished, positions, orders, positions.len() as int);
    let all = exits::jobs_of(m, positions, requests, holders, orders);
    if n < policy.len() {
        assert(wished[n] == policy[n]);
        assert(all[n] == wished[n]);
        assert(policy_asked(policy[n], requests, positions));
    } else if n < wished.len() {
        assert(all[n] == wished[n]);
        assert(strategy_asked(wished[n], m.strategy_exits, positions));
    } else {
        assert(all[n] == left[n - wished.len()]);
        assert(left_over_goes(left[n - wished.len()], positions, orders));
    }
}

/// No close that is asked for is forgotten: a position that a strategy wishes to close has an exit,
/// and, where exits are automatic, so has every one that the policy asks for, unless its strategy
/// holds it to settlement where the kernel settles by itself, and every one that is left over.
pub proof fn law_no_exit_is_forgotten(
    m: CoreModel,
    positions: Seq<OpenPosition>,
    requests: Seq<ExitRequestModel>,
    holders: Seq<Seq<char>>,
    orders: Seq<TrackedOrderModel>,
    i: int,
)
    requires
        0 <= i < positions.len(),
        forall|j: int|
            0 <= j < positions.len() && j != i ==> (#[trigger] positions[j]).id@
                != positions[i].id@ && positions[j].token_id@ != positions[i].token_id@,
    ensures
        ({
            let p = positions[i];
            let jobs = exits::jobs_of(m, positions, requests, holders, orders);
            &&& (exists|k: int|
                0 <= k < m.strategy_exits.len() && (#[trigger] m.strategy_exits[k]).token_id
                    == p.token_id@) ==> exits::has_job(jobs, p.id@)
            &&& (exists|k: int|
                0 <= k < requests.len() && (#[trigger] requests[k]).position_id == p.id@)
                && m.config.auto_exits_enabled && !(m.config.mode.is_local() && holders.contains(
                p.strategy@,
            )) ==> exits::has_job(jobs, p.id@)
            &&& left_over(p, orders) && m.config.auto_exits_enabled ==> exits::has_job(jobs, p.id@)
        }),
{
    let p = positions[i];
    let spared = if m.config.mode.is_local() {
        holders
    } else {
        Seq::empty()
    };
    let policy = if m.config.auto_exits_enabled {
        exits::policy_jobs(requests, positions, spared)
    } else {
        Seq::empty()
    };
    lemma_policy_asked(requests, positions, spared);
    lemma_strategy_asked(policy, m.strategy_exits, positions);
    exits::lemma_position_by_id(positions, p.id@);
    exits::lemma_position_on(positions, p.token_id@);
    assert(exits::position_by_id(positions, p.id@) == Some(i));
    assert(exits::position_on(positions, p.token_id@) == Some(i));
    let wished = exits::with_strategy_jobs(policy, m.strategy_exits, positions);
    let left = exits::residual_jobs(wished, positions, orders, positions.len() as int);
    lemma_residual_goes(wished, positions, orders, positions.len() as int);
    let all = exits::jobs_of(m, positions, requests, holders, orders);
    if exits::has_job(policy, p.id@) {
        let n = choose|n: int| 0 <= n < policy.len() && (#[trigger] policy[n]).position_id == p.id@;
        assert(wished[n] == policy[n]);
        assert(exits::has_job(wished, p.id@));
    }
    if exits::has_job(wished, p.id@) {
        let n = choose|n: int| 0 <= n < wished.len() && (#[trigger] wished[n]).position_id == p.id@;
        assert(all[n] == wished[n]);
    }
    if m.config.auto_exits_enabled && exits::has_job(left, p.id@) {
        let n = choose|n: int| 0 <= n < left.len() && (#[trigger] left[n]).position_id == p.id@;
        assert(all[wished.len() + n] == left[n]);
    }
    if exists|k: int|
        0 <= k < requests.len() && (#[trigger] requests[k]).position_id == p.id@ {
        let k = choose|k: int|
            0 <= k < requests.len() && (#[trigger] requests[k]).position_id == p.id@;
        assert(exits::position_by_id(positions, requests[k].position_id) == Some(i));
    }
    if exists|k: int|
        0 <= k < m.strategy_exits.len() && (#[trigger] m.strategy_exits[k]).token_id
            == p.token_id@ {
        let k = choose|k: int|
            0 <= k < m.strategy_exits.len() && (#[trigger] m.strategy_exits[k]).token_id
                == p.token_id@;
        assert(exits::position_on(positions, m.strategy_exits[k].token_id) == Some(i));
    }
}

/// The order of an exit sells what the job closes, all of what it is told to sell, under the job's own
/// name; a maker asks the job's price, and a taker gives way from it.
pub proof fn law_an_exit_order_sells_what_the_job_closes(
    job: ExitJobModel,
    slip_ticks: i64,
    size: Decimal,
)
    ensures
        ({
            let o = exits::exit_order(job, slip_ticks, size);
            &&& o.side == Side::Sell
            &&& o.token_id == job.token_id
            &&& o.condition_id == job.condition_id
            &&& o.size == size
            &&& o.internal_key == job.internal_key
            &&& o.strategy == job.strategy
            &&& o.asset == job.asset
            &&& exits::direction_named(o.direction) == job.direction
            &&& job.use_maker ==> o.mode == FillPolicy::Maker && o.price == job.price
            &&& !job.use_maker ==> o.mode == FillPolicy::Taker && o.price == exits::exit_limit(
                job.price,
                slip_ticks,
            )
            &&& job.price@ <= 0 ==> o.price == job.price
        }),
{
    exits::law_directions_are_read_back(job.direction);
}

/// A job comes to an order just where nothing sells the token already, there is something to sell, and
/// its intent is not waiting out a refusal.
pub proof fn law_an_exit_waits_for_nothing_else(
    m: CoreModel,
    job: ExitJobModel,
    already_live: bool,
    sell_shares: Option<Decimal>,
    now_ms: i64,
)
    requires
        rejections::closes(job.internal_key),
    ensures
        exits::exit_goes(m, job, already_live, sell_shares, now_ms) <==> {
            &&& !already_live
            &&& sell_shares is Some
            &&& m.place_cooldowns.dom().contains(job.internal_key)
                ==> m.place_cooldowns[job.internal_key].next_ok_ms <= now_ms
        },
{
}

/// A direction is down where the text reads "down" in whatever case, and up everywhere else.
pub proof fn law_only_down_is_down(s: Seq<char>)
    ensures
        exits::direction_named(s) == SignalDirection::Down <==> s.len() == "down"@.len() && forall|
            i: int,
        |
            0 <= i < s.len() ==> text::ascii_lower(#[trigger] s[i]) == "down"@[i],
{
    reveal_strlit("down");
    let t = "down"@;
    assert(t[0] == 'd' && t[1] == 'o' && t[2] == 'w' && t[3] == 'n');
    if s.len() == t.len() && forall|i: int|
        0 <= i < s.len() ==> text::ascii_lower(#[trigger] s[i]) == t[i] {
        assert(text::ascii_lower(s[0]) == t[0]);
        assert(text::ascii_lower(s[1]) == t[1]);
        assert(text::ascii_lower(s[2]) == t[2]);
        assert(text::ascii_lower(s[3]) == t[3]);
    }
}

/// A strategy's reason goes into the name of its close letter by letter, as far as there is room; what
/// could part the name is replaced.
pub proof fn law_a_tag_keeps_what_is_plain(reason: Seq<char>)
    ensures
        exits::tag(reason).len() == if reason.len() < exits::EXIT_TAG_MAX {
            reason.len() as int
        } else {
            exits::EXIT_TAG_MAX as int
        },
        forall|i: int|
            0 <= i < exits::tag(reason).len() ==> #[trigger] exits::tag(reason)[i] == if (
            'a' <= reason[i] <= 'z' || 'A' <= reason[i] <= 'Z' || '0' <= reason[i] <= '9'
                || reason[i] == '_' || reason[i] == '-') {
                reason[i]
            } else {
                '_'
            },
{
}

// ---------------------------------------------------------------------------------------------
// Refusals

/// The spacing of an intent's attempts starts at the base and doubles with every refusal, up to the
/// ceiling.
pub proof fn law_the_spacing_doubles(attempts: u32)
    requires
        attempts < u32::MAX,
    ensures
        attempts <= 1 ==> rejections::reject_backoff(attempts) == rejections::REJECT_BACKOFF_BASE_MS,
        attempts >= 1 ==> rejections::reject_backoff((attempts + 1) as u32) == if 2
            * rejections::reject_backoff(attempts) < rejections::REJECT_BACKOFF_MAX_MS {
            2 * rejections::reject_backoff(attempts)
        } else {
            rejections::REJECT_BACKOFF_MAX_MS as int
        },
{
}

/// A refusal counts as one attempt, is kept with its message, and puts the intent off by the spacing
/// of its attempts: it may not be placed before, and a close may be from then on.
pub proof fn law_a_refused_intent_waits(
    cooldowns: Map<Seq<char>, RejectCooldownModel>,
    key: Seq<char>,
    c: RejectCooldownModel,
    message: Seq<char>,
    now_ms: i64,
    later_ms: i64,
)
    requires
        c.attempts < u32::MAX,
        now_ms + rejections::reject_backoff((c.attempts + 1) as u32) <= i64::MAX,
        now_ms >= 0,
        cooldowns.dom().contains(key),
        cooldowns[key] == rejections::refused(c, message, now_ms),
    ensures
        cooldowns[key].attempts == c.attempts + 1,
        cooldowns[key].last_error == message,
        later_ms < now_ms + rejections::reject_backoff((c.attempts + 1) as u32)
            ==> rejections::blocked(cooldowns, key, later_ms),
        later_ms >= now_ms + rejections::reject_backoff((c.attempts + 1) as u32) ==> (
        rejections::blocked(cooldowns, key, later_ms) <==> c.attempts + 1
            >= rejections::MAX_PLACE_ATTEMPTS && !rejections::closes(key)),
{
}

/// An intent that was never refused is never held up, and no intent is held up by the refusals of
/// another.
pub proof fn law_an_intent_is_held_up_by_its_own_refusals(
    cooldowns: Map<Seq<char>, RejectCooldownModel>,
    key: Seq<char>,
    other: Seq<char>,
    c: RejectCooldownModel,
    now_ms: i64,
)
    requires
        key != other,
    ensures
        !cooldowns.dom().contains(key) ==> !rejections::blocked(cooldowns, key, now_ms),
        rejections::blocked(cooldowns.insert(other, c), key, now_ms) == rejections::blocked(
            cooldowns,
            key,
            now_ms,
        ),
{
}

/// An intent is a close just where its name begins like one of the four kinds of closes.
pub proof fn law_a_close_is_known_by_its_name(key: Seq<char>)
    ensures
        rejections::closes(key) <==> exists|rest: Seq<char>|
            key == #[trigger] ("exit:"@ + rest) || key == "exit-strategy:"@ + rest || key
                == "exit-residual:"@ + rest || key == "flatten:"@ + rest,
{
    if exists|rest: Seq<char>|
        key == #[trigger] ("exit:"@ + rest) || key == "exit-strategy:"@ + rest || key
            == "exit-residual:"@ + rest || key == "flatten:"@ + rest {
        let rest = choose|rest: Seq<char>|
            key == #[trigger] ("exit:"@ + rest) || key == "exit-strategy:"@ + rest || key
                == "exit-residual:"@ + rest || key == "flatten:"@ + rest;
        rejections::law_close_keys_close(rest);
    }
    if rejections::closes(key) {
        reveal_strlit("exit:");
        reveal_strlit("exit-strategy:");
        reveal_strlit("exit-residual:");
        reveal_strlit("flatten:");
        let a = key.skip("exit:"@.len() as int);
        let b = key.skip("exit-strategy:"@.len() as int);
        let c = key.skip("exit-residual:"@.len() as int);
        let d = key.skip("flatten:"@.len() as int);
        if text::starts(key, "exit:"@) {
            assert(key =~= "exit:"@ + a);
        } else if text::starts(key, "exit-strategy:"@) {
            assert(key =~= "exit-strategy:"@ + b);
            assert(("exit:"@ + b).len() >= 0);
        } else if text::starts(key, "exit-residual:"@) {
            assert(key =~= "exit-residual:"@ + c);
            assert(("exit:"@ + c).len() >= 0);
        } else {
            assert(key =~= "flatten:"@ + d);
            assert(("exit:"@ + d).len() >= 0);
        }
    }
}

} // verus!
