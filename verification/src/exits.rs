//! Closing positions: which of them are to be closed now, and by which orders.
//!
//! Three sources of closes meet here: the exit policy, the strategies' own wishes, and a backstop
//! for what an earlier close left over. Each becomes a job for one open position, and one path
//! turns jobs into orders, so that the same rules hold of all of them.
use vstd::prelude::*;
use vstd::string::*;

use crate::decimal::Decimal;
use crate::exit_reasons;
use crate::model;
use crate::model::{
    ExitReason, FillPolicy, OpenPosition, OrderRequest, OrderRequestModel, OrderStatus, Side,
    SignalDirection, TrackedOrder, TrackedOrderModel,
};
use crate::rejections;
use crate::service::{Core, CoreModel, StrategyExitIntent, StrategyExitIntentModel};
use crate::text;

verus! {

/// How much of a strategy's reason goes into the name of its close.
pub const EXIT_TAG_MAX: usize = 32;

/// A close that the exit policy asks for.
#[derive(Debug)]
pub struct ExitRequest {
    pub position_id: String,
    pub exit_price: Decimal,
    pub reason: ExitReason,
    pub use_maker: bool,
}

/// What a request to close says.
pub struct ExitRequestModel {
    pub position_id: Seq<char>,
    pub exit_price: Decimal,
    pub reason: ExitReason,
    pub use_maker: bool,
}

impl View for ExitRequest {
    type V = ExitRequestModel;

    open spec fn view(&self) -> ExitRequestModel {
        ExitRequestModel {
            position_id: self.position_id@,
            exit_price: self.exit_price,
            reason: self.reason,
            use_maker: self.use_maker,
        }
    }
}

impl Clone for ExitRequest {
    fn clone(&self) -> (r: Self)
        ensures
            r@ == self@,
    {
        ExitRequest {
            position_id: self.position_id.clone(),
            exit_price: self.exit_price,
            reason: self.reason,
            use_maker: self.use_maker,
        }
    }
}

/// A close to submit, for one open position.
#[derive(Debug)]
pub struct ExitJob {
    pub position_id: String,
    pub token_id: String,
    pub condition_id: String,
    pub price: Decimal,
    pub reason: ExitReason,
    pub use_maker: bool,
    pub internal_key: String,
    pub strategy: String,
    pub asset: String,
    pub direction: SignalDirection,
}

/// What a close to submit says.
pub struct ExitJobModel {
    pub position_id: Seq<char>,
    pub token_id: Seq<char>,
    pub condition_id: Seq<char>,
    pub price: Decimal,
    pub reason: ExitReason,
    pub use_maker: bool,
    pub internal_key: Seq<char>,
    pub strategy: Seq<char>,
    pub asset: Seq<char>,
    pub direction: SignalDirection,
}

impl View for ExitJob {
    type V = ExitJobModel;

    open spec fn view(&self) -> ExitJobModel {
        ExitJobModel {
            position_id: self.position_id@,
            token_id: self.token_id@,
            condition_id: self.condition_id@,
            price: self.price,
            reason: self.reason,
            use_maker: self.use_maker,
            internal_key: self.internal_key@,
            strategy: self.strategy@,
            asset: self.asset@,
            direction: self.direction,
        }
    }
}

impl Clone for ExitJob {
    fn clone(&self) -> (r: Self)
        ensures
            r@ == self@,
    {
        ExitJob {
            position_id: self.position_id.clone(),
            token_id: self.token_id.clone(),
            condition_id: self.condition_id.clone(),
            price: self.price,
            reason: self.reason,
            use_maker: self.use_maker,
            internal_key: self.internal_key.clone(),
            strategy: self.strategy.clone(),
            asset: self.asset.clone(),
            direction: self.direction,
        }
    }
}

// ---------------------------------------------------------------------------------------------
// Small parts

/// Whether a direction's text says "down", in whatever case.
pub open spec fn says_down(s: Seq<char>) -> bool {
    s.len() == 4 && (s[0] == 'd' || s[0] == 'D') && (s[1] == 'o' || s[1] == 'O') && (s[2] == 'w'
        || s[2] == 'W') && (s[3] == 'n' || s[3] == 'N')
}

/// The direction that a text names; what is not "down" is up.
pub open spec fn direction_named(s: Seq<char>) -> SignalDirection {
    if says_down(s) {
        SignalDirection::Down
    } else {
        SignalDirection::Up
    }
}

/// Reads a direction.
pub fn parse_direction(s: &str) -> (r: SignalDirection)
    ensures
        r == direction_named(s@),
{
    let c = text::chars_of(s);
    if c.len() == 4 && (c[0] == 'd' || c[0] == 'D') && (c[1] == 'o' || c[1] == 'O') && (c[2] == 'w'
        || c[2] == 'W') && (c[3] == 'n' || c[3] == 'N') {
        SignalDirection::Down
    } else {
        SignalDirection::Up
    }
}

/// The text of a direction.
pub open spec fn direction_text(d: SignalDirection) -> Seq<char> {
    match d {
        SignalDirection::Up => "up"@,
        SignalDirection::Down => "down"@,
    }
}

/// Writes a direction.
pub fn write_direction(d: SignalDirection) -> (r: String)
    ensures
        r@ == direction_text(d),
{
    match d {
        SignalDirection::Up => "up".to_owned(),
        SignalDirection::Down => "down".to_owned(),
    }
}

/// A direction that is written is read back.
pub proof fn law_directions_are_read_back(d: SignalDirection)
    ensures
        direction_named(direction_text(d)) == d,
{
    reveal_strlit("up");
    reveal_strlit("down");
}

/// The venue's lowest price, which is also its tick: one cent.
pub open spec fn one_tick() -> Decimal {
    Decimal::of((1, 2))
}

/// A number of ticks; none below zero.
pub open spec fn ticks(n: i64) -> Decimal {
    Decimal::of(
        (if n > 0 {
            n as i128
        } else {
            0
        }, 2),
    )
}

/// The limit of a taker's exit: some ticks below the bid that it means to hit, and not below the
/// venue's lowest price. A bid that is no price is left as it is.
pub open spec fn exit_limit(bid: Decimal, slip_ticks: i64) -> Decimal {
    if bid@ <= 0 {
        bid
    } else {
        bid.spec_minus(ticks(slip_ticks)).spec_max(one_tick())
    }
}

/// The limit of a taker's exit. Selling lower only widens what the order may hit: the venue fills
/// at the bid or better.
pub fn marketable_exit_price(executable_bid: Decimal, slip_ticks: i64) -> (r: Decimal)
    requires
        executable_bid@ > 0 ==> executable_bid.minus_ok(ticks(slip_ticks)),
    ensures
        r == exit_limit(executable_bid, slip_ticks),
        executable_bid@ > 0 ==> r@ >= one_tick()@,
        executable_bid@ > 0 && executable_bid.minus_exact(ticks(slip_ticks)) ==> r@ == if (
        executable_bid@ - ticks(slip_ticks)@) < one_tick()@ {
            one_tick()@
        } else {
            executable_bid@ - ticks(slip_ticks)@
        },
{
    if !executable_bid.is_positive() {
        return executable_bid;
    }
    let slip: i64 = if slip_ticks > 0 {
        slip_ticks
    } else {
        0
    };
    executable_bid.minus(Decimal::new(slip, 2)).max(Decimal::new(1, 2))
}

/// Whether a character stays as it is in the name of a close.
pub open spec fn is_plain(c: char) -> bool {
    'a' <= c <= 'z' || 'A' <= c <= 'Z' || '0' <= c <= '9' || c == '_' || c == '-'
}

/// A strategy's reason as part of a name: its beginning, with what is not plain replaced.
pub open spec fn tag(reason: Seq<char>) -> Seq<char> {
    let shown = if reason.len() <= EXIT_TAG_MAX {
        reason
    } else {
        reason.take(EXIT_TAG_MAX as int)
    };
    shown.map_values(
        |c: char|
            if is_plain(c) {
                c
            } else {
                '_'
            },
    )
}

fn write_tag(reason: &str) -> (r: String)
    ensures
        r@ == tag(reason@),
{
    let c = text::chars_of(reason);
    let mut out: Vec<char> = Vec::new();
    let mut i: usize = 0;
    while i < c.len() && i < EXIT_TAG_MAX
        invariant
            i <= c@.len(),
            i <= EXIT_TAG_MAX,
            c@ == reason@,
            out@.len() == i,
            forall|j: int|
                0 <= j < i ==> #[trigger] out@[j] == if is_plain(reason@[j]) {
                    reason@[j]
                } else {
                    '_'
                },
        decreases c@.len() - i,
    {
        let x: char = c[i];
        if ('a' <= x && x <= 'z') || ('A' <= x && x <= 'Z') || ('0' <= x && x <= '9') || x == '_'
            || x == '-' {
            out.push(x);
        } else {
            out.push('_');
        }
        i = i + 1;
    }
    assert(out@ =~= tag(reason@));
    text::text_of(&out)
}

// ---------------------------------------------------------------------------------------------
// Finding positions and orders

/// The first position with an id.
pub open spec fn position_by_id(positions: Seq<OpenPosition>, id: Seq<char>) -> Option<int>
    decreases positions.len(),
{
    if positions.len() == 0 {
        None
    } else {
        match position_by_id(positions.drop_last(), id) {
            Some(i) => Some(i),
            None => if positions.last().id@ == id {
                Some(positions.len() - 1)
            } else {
                None
            },
        }
    }
}

/// The first position on a token.
pub open spec fn position_on(positions: Seq<OpenPosition>, token: Seq<char>) -> Option<int>
    decreases positions.len(),
{
    if positions.len() == 0 {
        None
    } else {
        match position_on(positions.drop_last(), token) {
            Some(i) => Some(i),
            None => if positions.last().token_id@ == token {
                Some(positions.len() - 1)
            } else {
                None
            },
        }
    }
}

/// A position that is found has the id, and none before it has.
pub proof fn lemma_position_by_id(positions: Seq<OpenPosition>, id: Seq<char>)
    ensures
        match position_by_id(positions, id) {
            Some(i) => 0 <= i < positions.len() && positions[i].id@ == id && forall|j: int|
                0 <= j < i ==> (#[trigger] positions[j]).id@ != id,
            None => forall|j: int| 0 <= j < positions.len() ==> (#[trigger] positions[j]).id@ != id,
        },
    decreases positions.len(),
{
    if positions.len() > 0 {
        let front = positions.drop_last();
        lemma_position_by_id(front, id);
        assert forall|j: int| 0 <= j < front.len() implies #[trigger] positions[j] == front[j] by {}
    }
}

/// A position that is found is on the token, and none before it is.
pub proof fn lemma_position_on(positions: Seq<OpenPosition>, token: Seq<char>)
    ensures
        match position_on(positions, token) {
            Some(i) => 0 <= i < positions.len() && positions[i].token_id@ == token && forall|j: int|
                0 <= j < i ==> (#[trigger] positions[j]).token_id@ != token,
            None => forall|j: int|
                0 <= j < positions.len() ==> (#[trigger] positions[j]).token_id@ != token,
        },
    decreases positions.len(),
{
    if positions.len() > 0 {
        let front = positions.drop_last();
        lemma_position_on(front, token);
        assert forall|j: int| 0 <= j < front.len() implies #[trigger] positions[j] == front[j] by {}
    }
}

/// Finds the first position with an id.
pub fn find_by_id(positions: &Vec<OpenPosition>, id: &str) -> (r: Option<usize>)
    ensures
        match r {
            Some(i) => i < positions@.len() && position_by_id(positions@, id@) == Some(i as int)
                && positions@[i as int].id@ == id@,
            None => position_by_id(positions@, id@) is None,
        },
{
    proof {
        lemma_position_by_id(positions@, id@);
    }
    let mut i: usize = 0;
    while i < positions.len()
        invariant
            i <= positions@.len(),
            forall|j: int| 0 <= j < i ==> (#[trigger] positions@[j]).id@ != id@,
            match position_by_id(positions@, id@) {
                Some(k) => 0 <= k < positions@.len() && positions@[k].id@ == id@ && forall|j: int|
                    0 <= j < k ==> (#[trigger] positions@[j]).id@ != id@,
                None => forall|j: int|
                    0 <= j < positions@.len() ==> (#[trigger] positions@[j]).id@ != id@,
            },
        decreases positions@.len() - i,
    {
        if text::same_text(positions[i].id.as_str(), id) {
            return Some(i);
        }
        i = i + 1;
    }
    None
}

/// Finds the first position on a token.
pub fn find_on(positions: &Vec<OpenPosition>, token: &str) -> (r: Option<usize>)
    ensures
        match r {
            Some(i) => i < positions@.len() && position_on(positions@, token@) == Some(i as int)
                && positions@[i as int].token_id@ == token@,
            None => position_on(positions@, token@) is None,
        },
{
    proof {
        lemma_position_on(positions@, token@);
    }
    let mut i: usize = 0;
    while i < positions.len()
        invariant
            i <= positions@.len(),
            forall|j: int| 0 <= j < i ==> (#[trigger] positions@[j]).token_id@ != token@,
            match position_on(positions@, token@) {
                Some(k) => 0 <= k < positions@.len() && positions@[k].token_id@ == token@
                    && forall|j: int|
                    0 <= j < k ==> (#[trigger] positions@[j]).token_id@ != token@,
                None => forall|j: int|
                    0 <= j < positions@.len() ==> (#[trigger] positions@[j]).token_id@ != token@,
            },
        decreases positions@.len() - i,
    {
        if text::same_text(positions[i].token_id.as_str(), token) {
            return Some(i);
        }
        i = i + 1;
    }
    None
}

/// What a list of orders says.
pub open spec fn orders_model(orders: Seq<TrackedOrder>) -> Seq<TrackedOrderModel> {
    orders.map_values(|o: TrackedOrder| o@)
}

/// An order is a working sell of a token.
pub open spec fn is_live_sell(o: TrackedOrderModel, token: Seq<char>) -> bool {
    o.side == Side::Sell && o.token_id == token && o.live
}

/// Some working order sells a token.
pub open spec fn sells_live(orders: Seq<TrackedOrderModel>, token: Seq<char>) -> bool {
    exists|i: int| 0 <= i < orders.len() && is_live_sell(#[trigger] orders[i], token)
}

/// An order sold a token in full, at or after an instant.
pub open spec fn is_sold(o: TrackedOrderModel, token: Seq<char>, since_ms: i64) -> bool {
    o.side == Side::Sell && o.token_id == token && o.status == OrderStatus::Filled
        && o.updated_at_ms >= since_ms
}

/// Some order sold a token in full, at or after an instant.
pub open spec fn sold_since(orders: Seq<TrackedOrderModel>, token: Seq<char>, since_ms: i64) -> bool {
    exists|i: int| 0 <= i < orders.len() && is_sold(#[trigger] orders[i], token, since_ms)
}

/// Whether some working order sells a token.
pub fn has_live_sell(orders: &Vec<TrackedOrder>, token: &str) -> (r: bool)
    ensures
        r == sells_live(orders_model(orders@), token@),
{
    let ghost all = orders_model(orders@);
    let mut i: usize = 0;
    while i < orders.len()
        invariant
            i <= orders@.len(),
            all == orders_model(orders@),
            forall|j: int| 0 <= j < i ==> !is_live_sell(#[trigger] all[j], token@),
        decreases orders@.len() - i,
    {
        let o = &orders[i];
        assert(all[i as int] == o@);
        if o.side == Side::Sell && o.live && text::same_text(o.token_id.as_str(), token) {
            assert(is_live_sell(all[i as int], token@));
            return true;
        }
        i = i + 1;
    }
    false
}

/// Whether some order sold a token in full, at or after an instant.
pub fn has_sold_since(orders: &Vec<TrackedOrder>, token: &str, since_ms: i64) -> (r: bool)
    ensures
        r == sold_since(orders_model(orders@), token@, since_ms),
{
    let ghost all = orders_model(orders@);
    let mut i: usize = 0;
    while i < orders.len()
        invariant
            i <= orders@.len(),
            all == orders_model(orders@),
            forall|j: int| 0 <= j < i ==> !is_sold(#[trigger] all[j], token@, since_ms),
        decreases orders@.len() - i,
    {
        let o = &orders[i];
        assert(all[i as int] == o@);
        if o.side == Side::Sell && o.status == OrderStatus::Filled && o.updated_at_ms >= since_ms
            && text::same_text(o.token_id.as_str(), token) {
            assert(is_sold(all[i as int], token@, since_ms));
            return true;
        }
        i = i + 1;
    }
    false
}

// ---------------------------------------------------------------------------------------------
// The jobs

/// The price that a close at the market starts from: the position's latest price, or the venue's
/// lowest where it has none.
pub open spec fn closing_price(p: OpenPosition) -> Decimal {
    if p.current_price@ > 0 {
        p.current_price
    } else {
        one_tick()
    }
}

/// Picks the price that a close at the market starts from.
pub fn price_to_close(p: &OpenPosition) -> (r: Decimal)
    ensures
        r == closing_price(*p),
{
    if p.current_price.is_positive() {
        p.current_price
    } else {
        Decimal::new(1, 2)
    }
}

/// A close of a position.
pub open spec fn job_for(
    p: OpenPosition,
    price: Decimal,
    reason: ExitReason,
    use_maker: bool,
    internal_key: Seq<char>,
) -> ExitJobModel {
    ExitJobModel {
        position_id: p.id@,
        token_id: p.token_id@,
        condition_id: p.condition_id@,
        price,
        reason,
        use_maker,
        internal_key,
        strategy: p.strategy@,
        asset: p.asset@,
        direction: p.direction,
    }
}

fn make_job(
    p: &OpenPosition,
    price: Decimal,
    reason: ExitReason,
    use_maker: bool,
    internal_key: String,
) -> (r: ExitJob)
    ensures
        r@ == job_for(*p, price, reason, use_maker, internal_key@),
{
    ExitJob {
        position_id: p.id.clone(),
        token_id: p.token_id.clone(),
        condition_id: p.condition_id.clone(),
        price,
        reason,
        use_maker,
        internal_key,
        strategy: p.strategy.clone(),
        asset: p.asset.clone(),
        direction: p.direction,
    }
}

/// The name of a close that the exit policy asks for.
pub open spec fn policy_key(token: Seq<char>, reason: ExitReason) -> Seq<char> {
    "exit:"@ + token + ":"@ + reason.spec_name()
}

/// The name of a close that a strategy asks for.
pub open spec fn strategy_key(token: Seq<char>, reason: Seq<char>) -> Seq<char> {
    "exit-strategy:"@ + token + ":"@ + tag(reason)
}

/// The name of a close of what an earlier one left over.
pub open spec fn residual_key(token: Seq<char>) -> Seq<char> {
    "exit-residual:"@ + token
}

/// The closes that the exit policy asks for, of positions that are still open and that nobody
/// holds to settlement.
pub open spec fn policy_jobs(
    requests: Seq<ExitRequestModel>,
    positions: Seq<OpenPosition>,
    holders: Seq<Seq<char>>,
) -> Seq<ExitJobModel>
    decreases requests.len(),
{
    if requests.len() == 0 {
        Seq::empty()
    } else {
        let rest = policy_jobs(requests.drop_last(), positions, holders);
        let q = requests.last();
        match position_by_id(positions, q.position_id) {
            None => rest,
            Some(i) => if holders.contains(positions[i].strategy@) {
                rest
            } else {
                rest.push(
                    job_for(
                        positions[i],
                        q.exit_price,
                        q.reason,
                        q.use_maker,
                        policy_key(positions[i].token_id@, q.reason),
                    ),
                )
            },
        }
    }
}

/// Some job closes a position.
pub open spec fn has_job(jobs: Seq<ExitJobModel>, id: Seq<char>) -> bool {
    exists|i: int| 0 <= i < jobs.len() && (#[trigger] jobs[i]).position_id == id
}

/// The jobs so far, and the closes that strategies ask for: of the first position on the token,
/// unless it is being closed already. A wish for a token without a position is dropped.
pub open spec fn with_strategy_jobs(
    jobs: Seq<ExitJobModel>,
    intents: Seq<StrategyExitIntentModel>,
    positions: Seq<OpenPosition>,
) -> Seq<ExitJobModel>
    decreases intents.len(),
{
    if intents.len() == 0 {
        jobs
    } else {
        let rest = with_strategy_jobs(jobs, intents.drop_last(), positions);
        let x = intents.last();
        match position_on(positions, x.token_id) {
            None => rest,
            Some(i) => if has_job(rest, positions[i].id@) {
                rest
            } else {
                rest.push(
                    job_for(
                        positions[i],
                        closing_price(positions[i]),
                        ExitReason::StrategySignal,
                        false,
                        strategy_key(positions[i].token_id@, x.reason),
                    ),
                )
            },
        }
    }
}

/// Whether the position at a place is what an earlier close left over: it has no job, no position
/// before it has its id, no order sells its token now, and one sold it since the position opened.
pub open spec fn is_residual(
    jobs: Seq<ExitJobModel>,
    positions: Seq<OpenPosition>,
    orders: Seq<TrackedOrderModel>,
    i: int,
) -> bool {
    let p = positions[i];
    &&& !has_job(jobs, p.id@)
    &&& position_by_id(positions, p.id@) == Some(i)
    &&& !sells_live(orders, p.token_id@)
    &&& sold_since(orders, p.token_id@, p.entered_at_ms)
}

/// The closes of what earlier closes left over, of the first `n` positions.
pub open spec fn residual_jobs(
    jobs: Seq<ExitJobModel>,
    positions: Seq<OpenPosition>,
    orders: Seq<TrackedOrderModel>,
    n: int,
) -> Seq<ExitJobModel>
    decreases n,
{
    if n <= 0 {
        Seq::empty()
    } else {
        let rest = residual_jobs(jobs, positions, orders, n - 1);
        let p = positions[n - 1];
        if is_residual(jobs, positions, orders, n - 1) {
            rest.push(
                job_for(
                    p,
                    closing_price(p),
                    ExitReason::ForceExit,
                    false,
                    residual_key(p.token_id@),
                ),
            )
        } else {
            rest
        }
    }
}

/// The closes to submit. Positions whose strategy holds them to settlement are spared by the exit
/// policy where the kernel settles by itself; a strategy's own wish closes them all the same.
pub open spec fn jobs_of(
    m: CoreModel,
    positions: Seq<OpenPosition>,
    requests: Seq<ExitRequestModel>,
    holders: Seq<Seq<char>>,
    orders: Seq<TrackedOrderModel>,
) -> Seq<ExitJobModel> {
    let spared = if m.config.mode.is_local() {
        holders
    } else {
        Seq::empty()
    };
    let policy = if m.config.auto_exits_enabled {
        policy_jobs(requests, positions, spared)
    } else {
        Seq::empty()
    };
    let wished = with_strategy_jobs(policy, m.strategy_exits, positions);
    if m.config.auto_exits_enabled {
        wished + residual_jobs(wished, positions, orders, positions.len() as int)
    } else {
        wished
    }
}

/// What a list of jobs says.
pub open spec fn jobs_model(jobs: Seq<ExitJob>) -> Seq<ExitJobModel> {
    jobs.map_values(|j: ExitJob| j@)
}

fn job_exists(jobs: &Vec<ExitJob>, id: &str) -> (r: bool)
    ensures
        r == has_job(jobs_model(jobs@), id@),
{
    let ghost all = jobs_model(jobs@);
    let mut i: usize = 0;
    while i < jobs.len()
        invariant
            i <= jobs@.len(),
            all == jobs_model(jobs@),
            forall|j: int| 0 <= j < i ==> (#[trigger] all[j]).position_id != id@,
        decreases jobs@.len() - i,
    {
        assert(all[i as int] == jobs@[i as int]@);
        if text::same_text(jobs[i].position_id.as_str(), id) {
            assert(all[i as int].position_id == id@);
            return true;
        }
        i = i + 1;
    }
    false
}

/// The closes that the exit policy asks for.
fn collect_policy_jobs(
    requests: &Vec<ExitRequest>,
    positions: &Vec<OpenPosition>,
    holders: &Vec<String>,
    local: bool,
) -> (r: Vec<ExitJob>)
    ensures
        jobs_model(r@) == policy_jobs(
            requests@.map_values(|q: ExitRequest| q@),
            positions@,
            if local {
                model::texts(holders@)
            } else {
                Seq::empty()
            },
        ),
{
    let ghost all = requests@.map_values(|q: ExitRequest| q@);
    let ghost spared = if local {
        model::texts(holders@)
    } else {
        Seq::empty()
    };
    let mut jobs: Vec<ExitJob> = Vec::new();
    let mut i: usize = 0;
    proof {
        assert(all.take(0) =~= Seq::empty());
        assert(jobs_model(jobs@) =~= Seq::empty());
    }
    while i < requests.len()
        invariant
            i <= requests@.len(),
            all == requests@.map_values(|q: ExitRequest| q@),
            spared == if local {
                model::texts(holders@)
            } else {
                Seq::empty()
            },
            jobs_model(jobs@) == policy_jobs(all.take(i as int), positions@, spared),
        decreases requests@.len() - i,
    {
        let q = &requests[i];
        proof {
            assert(all.take(i + 1).drop_last() =~= all.take(i as int));
            assert(all.take(i + 1).last() == q@);
        }
        match find_by_id(positions, q.position_id.as_str()) {
            None => {},
            Some(k) => {
                let p = &positions[k];
                let held = local && text::is_listed(holders, p.strategy.as_str());
                assert(held == spared.contains(p.strategy@));
                if !held {
                    let mut key = text::join("exit:", p.token_id.as_str());
                    key.append(":");
                    key.append(q.reason.name());
                    let ghost before = jobs_model(jobs@);
                    let job = make_job(p, q.exit_price, q.reason, q.use_maker, key);
                    jobs.push(job);
                    assert(jobs_model(jobs@) =~= before.push(job@));
                }
            },
        }
        i = i + 1;
    }
    assert(all.take(i as int) =~= all);
    jobs
}

/// Adds the closes that strategies ask for.
fn add_strategy_jobs(
    jobs: &mut Vec<ExitJob>,
    intents: &Vec<StrategyExitIntent>,
    positions: &Vec<OpenPosition>,
)
    ensures
        jobs_model(final(jobs)@) == with_strategy_jobs(
            jobs_model(old(jobs)@),
            intents@.map_values(|v: StrategyExitIntent| v@),
            positions@,
        ),
{
    let ghost all = intents@.map_values(|v: StrategyExitIntent| v@);
    let ghost first = jobs_model(jobs@);
    let mut i: usize = 0;
    proof {
        assert(all.take(0) =~= Seq::empty());
    }
    while i < intents.len()
        invariant
            i <= intents@.len(),
            all == intents@.map_values(|v: StrategyExitIntent| v@),
            jobs_model(jobs@) == with_strategy_jobs(first, all.take(i as int), positions@),
        decreases intents@.len() - i,
    {
        let x = &intents[i];
        proof {
            assert(all.take(i + 1).drop_last() =~= all.take(i as int));
            assert(all.take(i + 1).last() == x@);
        }
        match find_on(positions, x.token_id.as_str()) {
            None => {},
            Some(k) => {
                let p = &positions[k];
                if !job_exists(jobs, p.id.as_str()) {
                    let mut key = text::join("exit-strategy:", p.token_id.as_str());
                    key.append(":");
                    key.append(write_tag(x.reason.as_str()).as_str());
                    let ghost before = jobs_model(jobs@);
                    let job = make_job(
                        p,
                        price_to_close(p),
                        ExitReason::StrategySignal,
                        false,
                        key,
                    );
                    jobs.push(job);
                    assert(jobs_model(jobs@) =~= before.push(job@));
                }
            },
        }
        i = i + 1;
    }
    assert(all.take(i as int) =~= all);
}

/// The closes of what earlier closes left over.
fn collect_residual_jobs(
    jobs: &Vec<ExitJob>,
    positions: &Vec<OpenPosition>,
    orders: &Vec<TrackedOrder>,
) -> (r: Vec<ExitJob>)
    ensures
        jobs_model(r@) == residual_jobs(
            jobs_model(jobs@),
            positions@,
            orders_model(orders@),
            positions@.len() as int,
        ),
{
    let mut out: Vec<ExitJob> = Vec::new();
    let mut i: usize = 0;
    assert(jobs_model(out@) =~= Seq::empty());
    while i < positions.len()
        invariant
            i <= positions@.len(),
            jobs_model(out@) == residual_jobs(
                jobs_model(jobs@),
                positions@,
                orders_model(orders@),
                i as int,
            ),
        decreases positions@.len() - i,
    {
        let p = &positions[i];
        let first = match find_by_id(positions, p.id.as_str()) {
            Some(k) => k == i,
            None => false,
        };
        if first && !job_exists(jobs, p.id.as_str()) && !has_live_sell(orders, p.token_id.as_str())
            && has_sold_since(orders, p.token_id.as_str(), p.entered_at_ms) {
            let ghost before = jobs_model(out@);
            let job = make_job(
                p,
                price_to_close(p),
                ExitReason::ForceExit,
                false,
                text::join("exit-residual:", p.token_id.as_str()),
            );
            out.push(job);
            assert(jobs_model(out@) =~= before.push(job@));
        }
        i = i + 1;
    }
    out
}

/// The order of a close.
pub open spec fn exit_order(job: ExitJobModel, slip_ticks: i64, size: Decimal) -> OrderRequestModel {
    OrderRequestModel {
        token_id: job.token_id,
        condition_id: job.condition_id,
        side: Side::Sell,
        mode: if job.use_maker {
            FillPolicy::Maker
        } else {
            FillPolicy::Taker
        },
        price: if job.use_maker {
            job.price
        } else {
            exit_limit(job.price, slip_ticks)
        },
        size,
        internal_key: job.internal_key,
        strategy: job.strategy,
        asset: job.asset,
        direction: direction_text(job.direction),
        round_slot: 0,
    }
}

/// Whether a job comes to an order now: nothing sells the token already, the intent is not waiting
/// out a refusal, and there is something to sell.
pub open spec fn exit_goes(
    m: CoreModel,
    job: ExitJobModel,
    already_live: bool,
    sell_shares: Option<Decimal>,
    now_ms: i64,
) -> bool {
    !already_live && !rejections::blocked(m.place_cooldowns, job.internal_key, now_ms)
        && sell_shares is Some
}

impl Core {
    /// The closes to submit now. The positions are as they were last valued, the requests are what
    /// the exit policy asks for, and the holders are the strategies that hold to settlement. The
    /// strategies' wishes are used up: none waits for a later position.
    pub fn exit_jobs(
        &mut self,
        positions: &Vec<OpenPosition>,
        requests: &Vec<ExitRequest>,
        holders: &Vec<String>,
        orders: &Vec<TrackedOrder>,
    ) -> (r: Vec<ExitJob>)
        requires
            old(self).wf(),
        ensures
            final(self).wf(),
            final(self)@ == (CoreModel { strategy_exits: Seq::empty(), ..old(self)@ }),
            jobs_model(r@) == jobs_of(
                old(self)@,
                positions@,
                requests@.map_values(|q: ExitRequest| q@),
                model::texts(holders@),
                orders_model(orders@),
            ),
    {
        let ghost m = self@;
        let mut intents: Vec<StrategyExitIntent> = Vec::new();
        assert(intents@.map_values(|v: StrategyExitIntent| v@) =~= Seq::empty());
        std::mem::swap(&mut intents, &mut self.strategy_exits);
        let mut jobs = if self.config.auto_exits_enabled {
            collect_policy_jobs(requests, positions, holders, self.config.mode.settles_locally())
        } else {
            let none: Vec<ExitJob> = Vec::new();
            assert(jobs_model(none@) =~= Seq::empty());
            none
        };
        add_strategy_jobs(&mut jobs, &intents, positions);
        if self.config.auto_exits_enabled {
            let mut more = collect_residual_jobs(&jobs, positions, orders);
            let ghost a = jobs_model(jobs@);
            let ghost b = jobs_model(more@);
            jobs.append(&mut more);
            assert(jobs_model(jobs@) =~= a + b);
        }
        jobs
    }

    /// The order of a close, where it is due: nothing else sells the token, the intent is not
    /// waiting out a refusal, and there are shares to sell. The reason is noted, so that the fill
    /// that completes the close records it.
    pub fn exit_order(
        &mut self,
        job: &ExitJob,
        already_live: bool,
        sell_shares: Option<Decimal>,
        open_tokens: &Vec<String>,
        now_ms: i64,
    ) -> (r: Option<OrderRequest>)
        requires
            old(self).wf(),
            old(self)@.exit_reasons.evicted < u64::MAX,
            !job.use_maker && job.price@ > 0 ==> job.price.minus_ok(
                ticks(old(self)@.config.exit_taker_slip_ticks),
            ),
        ensures
            final(self).wf(),
            match r {
                Some(order) => exit_goes(old(self)@, job@, already_live, sell_shares, now_ms)
                    && order@ == exit_order(
                    job@,
                    old(self)@.config.exit_taker_slip_ticks,
                    sell_shares->0,
                ) && final(self)@ == (CoreModel {
                    exit_reasons: exit_reasons::note_step(
                        old(self)@.exit_reasons,
                        job@.token_id,
                        job@.reason,
                        model::texts(open_tokens@),
                    ),
                    ..old(self)@
                }),
                None => !exit_goes(old(self)@, job@, already_live, sell_shares, now_ms)
                    && final(self)@ == old(self)@,
            },
    {
        if already_live {
            return None;
        }
        if self.placement_blocked(job.internal_key.as_str(), now_ms) {
            return None;
        }
        let size = match sell_shares {
            Some(s) => s,
            None => {
                return None;
            },
        };
        let price = if job.use_maker {
            job.price
        } else {
            marketable_exit_price(job.price, self.config.exit_taker_slip_ticks)
        };
        let order = OrderRequest {
            token_id: job.token_id.clone(),
            condition_id: job.condition_id.clone(),
            side: Side::Sell,
            mode: if job.use_maker {
                FillPolicy::Maker
            } else {
                FillPolicy::Taker
            },
            price,
            size,
            internal_key: job.internal_key.clone(),
            strategy: job.strategy.clone(),
            asset: job.asset.clone(),
            direction: write_direction(job.direction),
            round_slot: 0,
        };
        self.exit_reasons.note_exit_reason(job.token_id.as_str(), job.reason, open_tokens);
        Some(order)
    }
}

// ---------------------------------------------------------------------------------------------
// Laws

/// A job closes an open position under the name of a close.
pub open spec fn sound_job(job: ExitJobModel, positions: Seq<OpenPosition>) -> bool {
    &&& rejections::closes(job.internal_key)
    &&& exists|i: int|
        0 <= i < positions.len() && (#[trigger] positions[i]).id@ == job.position_id
            && positions[i].token_id@ == job.token_id
}

/// Every job of a list closes an open position under the name of a close.
pub open spec fn sound_jobs(jobs: Seq<ExitJobModel>, positions: Seq<OpenPosition>) -> bool {
    forall|i: int| 0 <= i < jobs.len() ==> sound_job(#[trigger] jobs[i], positions)
}

proof fn lemma_policy_sound(
    requests: Seq<ExitRequestModel>,
    positions: Seq<OpenPosition>,
    holders: Seq<Seq<char>>,
)
    ensures
        sound_jobs(policy_jobs(requests, positions, holders), positions),
    decreases requests.len(),
{
    if requests.len() > 0 {
        lemma_policy_sound(requests.drop_last(), positions, holders);
        let q = requests.last();
        lemma_position_by_id(positions, q.position_id);
        if let Some(i) = position_by_id(positions, q.position_id) {
            let token = positions[i].token_id@;
            rejections::law_close_keys_close(token + ":"@ + q.reason.spec_name());
            assert(policy_key(token, q.reason) =~= "exit:"@ + (token + ":"@
                + q.reason.spec_name()));
        }
    }
}

proof fn lemma_strategy_sound(
    jobs: Seq<ExitJobModel>,
    intents: Seq<StrategyExitIntentModel>,
    positions: Seq<OpenPosition>,
)
    requires
        sound_jobs(jobs, positions),
    ensures
        sound_jobs(with_strategy_jobs(jobs, intents, positions), positions),
    decreases intents.len(),
{
    if intents.len() > 0 {
        lemma_strategy_sound(jobs, intents.drop_last(), positions);
        let x = intents.last();
        lemma_position_on(positions, x.token_id);
        if let Some(i) = position_on(positions, x.token_id) {
            let token = positions[i].token_id@;
            rejections::law_close_keys_close(token + ":"@ + tag(x.reason));
            assert(strategy_key(token, x.reason) =~= "exit-strategy:"@ + (token + ":"@ + tag(
                x.reason,
            )));
        }
    }
}

proof fn lemma_residual_sound(
    jobs: Seq<ExitJobModel>,
    positions: Seq<OpenPosition>,
    orders: Seq<TrackedOrderModel>,
    n: int,
)
    requires
        n <= positions.len(),
    ensures
        sound_jobs(residual_jobs(jobs, positions, orders, n), positions),
    decreases n,
{
    if n > 0 {
        lemma_residual_sound(jobs, positions, orders, n - 1);
        rejections::law_close_keys_close(positions[n - 1].token_id@);
    }
}

/// Whatever asks for it, an exit closes a position that is open, and its intent is that of a
/// close: no cap on refusals ever gives it up.
pub proof fn law_an_exit_closes_an_open_position(
    m: CoreModel,
    positions: Seq<OpenPosition>,
    requests: Seq<ExitRequestModel>,
    holders: Seq<Seq<char>>,
    orders: Seq<TrackedOrderModel>,
)
    ensures
        sound_jobs(jobs_of(m, positions, requests, holders, orders), positions),
{
    let spared = if m.config.mode.is_local() {
        holders
    } else {
        Seq::empty()
    };
    let policy = if m.config.auto_exits_enabled {
        policy_jobs(requests, positions, spared)
    } else {
        Seq::empty()
    };
    lemma_policy_sound(requests, positions, spared);
    lemma_strategy_sound(policy, m.strategy_exits, positions);
    let wished = with_strategy_jobs(policy, m.strategy_exits, positions);
    lemma_residual_sound(wished, positions, orders, positions.len() as int);
}

/// No position has two jobs.
pub open spec fn one_job_each(jobs: Seq<ExitJobModel>) -> bool {
    forall|i: int, j: int|
        0 <= i < j < jobs.len() ==> (#[trigger] jobs[i]).position_id != (
        #[trigger] jobs[j]).position_id
}

/// The exit policy asks for no position twice.
pub open spec fn one_request_each(requests: Seq<ExitRequestModel>) -> bool {
    forall|i: int, j: int|
        0 <= i < j < requests.len() ==> (#[trigger] requests[i]).position_id != (
        #[trigger] requests[j]).position_id
}

proof fn lemma_policy_once(
    requests: Seq<ExitRequestModel>,
    positions: Seq<OpenPosition>,
    holders: Seq<Seq<char>>,
)
    requires
        one_request_each(requests),
    ensures
        one_job_each(policy_jobs(requests, positions, holders)),
        forall|i: int|
            0 <= i < policy_jobs(requests, positions, holders).len() ==> exists|j: int|
                0 <= j < requests.len() && (#[trigger] requests[j]).position_id == (
                #[trigger] policy_jobs(requests, positions, holders)[i]).position_id,
    decreases requests.len(),
{
    if requests.len() > 0 {
        let front = requests.drop_last();
        assert(one_request_each(front)) by {
            assert forall|i: int, j: int| 0 <= i < j < front.len() implies (
            #[trigger] front[i]).position_id != (#[trigger] front[j]).position_id by {
                assert(requests[i].position_id != requests[j].position_id);
            }
        }
        lemma_policy_once(front, positions, holders);
        let q = requests.last();
        lemma_position_by_id(positions, q.position_id);
        let rest = policy_jobs(front, positions, holders);
        let all = policy_jobs(requests, positions, holders);
        assert forall|i: int| 0 <= i < rest.len() implies (#[trigger] rest[i]).position_id
            != q.position_id && exists|j: int|
            0 <= j < requests.len() && (#[trigger] requests[j]).position_id
                == rest[i].position_id by {
            let j = choose|j: int|
                0 <= j < front.len() && (#[trigger] front[j]).position_id == rest[i].position_id;
            assert(requests[j] == front[j]);
            assert(requests[j].position_id != requests[requests.len() - 1].position_id);
        }
        assert forall|i: int| 0 <= i < all.len() implies exists|j: int|
            0 <= j < requests.len() && (#[trigger] requests[j]).position_id == (
            #[trigger] all[i]).position_id by {
            if i < rest.len() {
                assert(all[i] == rest[i]);
            } else {
                assert(requests[requests.len() - 1].position_id == all[i].position_id);
            }
        }
    }
}

proof fn lemma_strategy_once(
    jobs: Seq<ExitJobModel>,
    intents: Seq<StrategyExitIntentModel>,
    positions: Seq<OpenPosition>,
)
    requires
        one_job_each(jobs),
    ensures
        one_job_each(with_strategy_jobs(jobs, intents, positions)),
    decreases intents.len(),
{
    if intents.len() > 0 {
        lemma_strategy_once(jobs, intents.drop_last(), positions);
    }
}

proof fn lemma_residual_once(
    jobs: Seq<ExitJobModel>,
    positions: Seq<OpenPosition>,
    orders: Seq<TrackedOrderModel>,
    n: int,
)
    requires
        0 <= n <= positions.len(),
    ensures
        one_job_each(residual_jobs(jobs, positions, orders, n)),
        forall|i: int|
            0 <= i < residual_jobs(jobs, positions, orders, n).len() ==> {
                let id = (#[trigger] residual_jobs(jobs, positions, orders, n)[i]).position_id;
                &&& !has_job(jobs, id)
                &&& position_by_id(positions, id) matches Some(k)
                &&& k < n
            },
    decreases n,
{
    if n > 0 {
        lemma_residual_once(jobs, positions, orders, n - 1);
    }
}

/// A position gets at most one exit at a time: what a strategy wishes and what is left over give
/// way to a close that is already on its way.
pub proof fn law_a_position_gets_one_exit_at_a_time(
    m: CoreModel,
    positions: Seq<OpenPosition>,
    requests: Seq<ExitRequestModel>,
    holders: Seq<Seq<char>>,
    orders: Seq<TrackedOrderModel>,
)
    requires
        one_request_each(requests),
    ensures
        one_job_each(jobs_of(m, positions, requests, holders, orders)),
{
    let spared = if m.config.mode.is_local() {
        holders
    } else {
        Seq::empty()
    };
    let policy = if m.config.auto_exits_enabled {
        policy_jobs(requests, positions, spared)
    } else {
        Seq::empty()
    };
    lemma_policy_once(requests, positions, spared);
    lemma_strategy_once(policy, m.strategy_exits, positions);
    let wished = with_strategy_jobs(policy, m.strategy_exits, positions);
    let left = residual_jobs(wished, positions, orders, positions.len() as int);
    lemma_residual_once(wished, positions, orders, positions.len() as int);
    let all = wished + left;
    assert forall|i: int, j: int| 0 <= i < j < all.len() implies (#[trigger] all[i]).position_id
        != (#[trigger] all[j]).position_id by {
        if j >= wished.len() {
            assert(all[j] == left[j - wished.len()]);
            assert(!has_job(wished, all[j].position_id));
            if i < wished.len() {
                assert(all[i] == wished[i]);
            } else {
                assert(all[i] == left[i - wished.len()]);
            }
        } else {
            assert(all[i] == wished[i] && all[j] == wished[j]);
        }
    }
}

/// Where the kernel settles by itself, the exit policy never closes a position that its strategy
/// holds to settlement.
pub proof fn law_the_exit_policy_spares_what_is_held_to_settlement(
    requests: Seq<ExitRequestModel>,
    positions: Seq<OpenPosition>,
    holders: Seq<Seq<char>>,
    i: int,
)
    requires
        0 <= i < policy_jobs(requests, positions, holders).len(),
    ensures
        !holders.contains(policy_jobs(requests, positions, holders)[i].strategy),
    decreases requests.len(),
{
    let rest = policy_jobs(requests.drop_last(), positions, holders);
    if i < rest.len() {
        law_the_exit_policy_spares_what_is_held_to_settlement(
            requests.drop_last(),
            positions,
            holders,
            i,
        );
    }
}

} // verus!
