//! What a panel is shown of the kernel.
use vstd::prelude::*;
use vstd::string::*;

use crate::config::StrategyLimitModel;
use crate::decimal;
use crate::decimal::Decimal;
use crate::entries::CryptoMarket;
use crate::exit_reasons;
use crate::exit_reasons::ExitReasonsView;
use crate::exits;
use crate::limits;
use crate::limits::{EffectiveSizing, SizingView};
use crate::model;
use crate::model::OpenPosition;
use crate::rejections;
use crate::service;
use crate::service::{
    AuditReportModel, ClosedPosition, Core, CoreModel, CoreStats, LastError, SelfCheckReport,
};
use crate::settlement;
use crate::settlement::ClaimModel;
use crate::settling;
use crate::str_map;
use crate::str_map::StrMap;
use crate::text;

verus! {

/// What a list of counts says.
pub open spec fn count_rows(v: Seq<(String, u64)>) -> Seq<(Seq<char>, u64)> {
    v.map_values(|x: (String, u64)| (x.0@, x.1))
}

/// What the engine says of a strategy.
#[derive(Debug)]
pub struct StrategyInfo {
    /// Where it comes from.
    pub source: String,
    /// Its sizing in force.
    pub sizing: EffectiveSizing,
    /// The budget of an entry on the account as it is.
    pub entry_budget_usd: Decimal,
    pub exempt_gates: Vec<String>,
    pub timing_floor_sec: Option<i64>,
    /// How often the timing gate stopped it.
    pub blocked_timing: u64,
    pub blocked_momentum: u64,
    /// How often an exemption let it through.
    pub exempted_timing: u64,
    pub exempted_momentum: u64,
}

/// What the engine says of a strategy.
pub struct StrategyInfoModel {
    pub source: Seq<char>,
    pub sizing: EffectiveSizing,
    pub entry_budget_usd: Decimal,
    pub exempt_gates: Seq<Seq<char>>,
    pub timing_floor_sec: Option<i64>,
    pub blocked_timing: u64,
    pub blocked_momentum: u64,
    pub exempted_timing: u64,
    pub exempted_momentum: u64,
}

impl View for StrategyInfo {
    type V = StrategyInfoModel;

    open spec fn view(&self) -> StrategyInfoModel {
        StrategyInfoModel {
            source: self.source@,
            sizing: self.sizing,
            entry_budget_usd: self.entry_budget_usd,
            exempt_gates: model::texts(self.exempt_gates@),
            timing_floor_sec: self.timing_floor_sec,
            blocked_timing: self.blocked_timing,
            blocked_momentum: self.blocked_momentum,
            exempted_timing: self.exempted_timing,
            exempted_momentum: self.exempted_momentum,
        }
    }
}

impl Clone for StrategyInfo {
    fn clone(&self) -> (r: Self)
        ensures
            r@ == self@,
    {
        StrategyInfo {
            source: self.source.clone(),
            sizing: self.sizing,
            entry_budget_usd: self.entry_budget_usd,
            exempt_gates: model::clone_texts(&self.exempt_gates),
            timing_floor_sec: self.timing_floor_sec,
            blocked_timing: self.blocked_timing,
            blocked_momentum: self.blocked_momentum,
            exempted_timing: self.exempted_timing,
            exempted_momentum: self.exempted_momentum,
        }
    }
}

/// A strategy as a panel shows it.
#[derive(Debug)]
pub struct StrategyStats {
    pub name: String,
    pub enabled: bool,
    pub source: String,
    pub open_positions: usize,
    pub open_notional_usd: Decimal,
    pub max_open_positions: Option<usize>,
    pub max_open_notional_usd: Option<Decimal>,
    pub sizing: EffectiveSizing,
    pub entry_budget_usd: Decimal,
    pub exempt_gates: Vec<String>,
    pub timing_floor_sec: Option<i64>,
    pub blocked_timing: u64,
    pub blocked_momentum: u64,
    pub exempted_timing: u64,
    pub exempted_momentum: u64,
    pub orders_placed: u64,
    pub orders_rejected: u64,
    pub limit_rejected: u64,
    /// The causes that were counted, by name.
    pub rejection_causes: Vec<(String, u64)>,
    pub closed_trades: u64,
    pub wins: u64,
    pub losses: u64,
    pub fees_usd: Decimal,
    pub net_pnl_usd: Decimal,
}

/// What is shown of a strategy.
pub struct StrategyStatsModel {
    pub name: Seq<char>,
    pub enabled: bool,
    pub source: Seq<char>,
    pub open_positions: usize,
    pub open_notional_usd: Decimal,
    pub max_open_positions: Option<usize>,
    pub max_open_notional_usd: Option<Decimal>,
    pub sizing: EffectiveSizing,
    pub entry_budget_usd: Decimal,
    pub exempt_gates: Seq<Seq<char>>,
    pub timing_floor_sec: Option<i64>,
    pub blocked_timing: u64,
    pub blocked_momentum: u64,
    pub exempted_timing: u64,
    pub exempted_momentum: u64,
    pub orders_placed: u64,
    pub orders_rejected: u64,
    pub limit_rejected: u64,
    pub rejection_causes: Seq<(Seq<char>, u64)>,
    pub closed_trades: u64,
    pub wins: u64,
    pub losses: u64,
    pub fees_usd: Decimal,
    pub net_pnl_usd: Decimal,
}

impl View for StrategyStats {
    type V = StrategyStatsModel;

    open spec fn view(&self) -> StrategyStatsModel {
        StrategyStatsModel {
            name: self.name@,
            enabled: self.enabled,
            source: self.source@,
            open_positions: self.open_positions,
            open_notional_usd: self.open_notional_usd,
            max_open_positions: self.max_open_positions,
            max_open_notional_usd: self.max_open_notional_usd,
            sizing: self.sizing,
            entry_budget_usd: self.entry_budget_usd,
            exempt_gates: model::texts(self.exempt_gates@),
            timing_floor_sec: self.timing_floor_sec,
            blocked_timing: self.blocked_timing,
            blocked_momentum: self.blocked_momentum,
            exempted_timing: self.exempted_timing,
            exempted_momentum: self.exempted_momentum,
            orders_placed: self.orders_placed,
            orders_rejected: self.orders_rejected,
            limit_rejected: self.limit_rejected,
            rejection_causes: count_rows(self.rejection_causes@),
            closed_trades: self.closed_trades,
            wins: self.wins,
            losses: self.losses,
            fees_usd: self.fees_usd,
            net_pnl_usd: self.net_pnl_usd,
        }
    }
}

/// An open position as a panel shows it.
#[derive(Debug)]
pub struct PositionView {
    pub id: String,
    pub asset: String,
    pub direction: String,
    pub strategy: String,
    pub token_id: String,
    pub entry_price: Decimal,
    pub current_price: Decimal,
    pub shares: Decimal,
    pub unrealized_pct: Decimal,
    pub high_pnl_pct: Decimal,
    pub was_maker_entry: bool,
    pub entered_at_ms: i64,
    pub expires_at_ms: i64,
    pub remaining_sec: i64,
    /// All that was paid in.
    pub entry_cost_usd: Decimal,
    /// The basis of what is still held.
    pub cost_usd: Decimal,
    pub entry_fee_usd: Decimal,
    pub proceeds_usd: Decimal,
    pub exit_fee_usd: Decimal,
}

/// What is shown of an open position.
pub struct PositionViewModel {
    pub id: Seq<char>,
    pub asset: Seq<char>,
    pub direction: Seq<char>,
    pub strategy: Seq<char>,
    pub token_id: Seq<char>,
    pub entry_price: Decimal,
    pub current_price: Decimal,
    pub shares: Decimal,
    pub unrealized_pct: Decimal,
    pub high_pnl_pct: Decimal,
    pub was_maker_entry: bool,
    pub entered_at_ms: i64,
    pub expires_at_ms: i64,
    pub remaining_sec: i64,
    pub entry_cost_usd: Decimal,
    pub cost_usd: Decimal,
    pub entry_fee_usd: Decimal,
    pub proceeds_usd: Decimal,
    pub exit_fee_usd: Decimal,
}

impl View for PositionView {
    type V = PositionViewModel;

    open spec fn view(&self) -> PositionViewModel {
        PositionViewModel {
            id: self.id@,
            asset: self.asset@,
            direction: self.direction@,
            strategy: self.strategy@,
            token_id: self.token_id@,
            entry_price: self.entry_price,
            current_price: self.current_price,
            shares: self.shares,
            unrealized_pct: self.unrealized_pct,
            high_pnl_pct: self.high_pnl_pct,
            was_maker_entry: self.was_maker_entry,
            entered_at_ms: self.entered_at_ms,
            expires_at_ms: self.expires_at_ms,
            remaining_sec: self.remaining_sec,
            entry_cost_usd: self.entry_cost_usd,
            cost_usd: self.cost_usd,
            entry_fee_usd: self.entry_fee_usd,
            proceeds_usd: self.proceeds_usd,
            exit_fee_usd: self.exit_fee_usd,
        }
    }
}

impl Clone for PositionView {
    fn clone(&self) -> (r: Self)
        ensures
            r@ == self@,
    {
        PositionView {
            id: self.id.clone(),
            asset: self.asset.clone(),
            direction: self.direction.clone(),
            strategy: self.strategy.clone(),
            token_id: self.token_id.clone(),
            entry_price: self.entry_price,
            current_price: self.current_price,
            shares: self.shares,
            unrealized_pct: self.unrealized_pct,
            high_pnl_pct: self.high_pnl_pct,
            was_maker_entry: self.was_maker_entry,
            entered_at_ms: self.entered_at_ms,
            expires_at_ms: self.expires_at_ms,
            remaining_sec: self.remaining_sec,
            entry_cost_usd: self.entry_cost_usd,
            cost_usd: self.cost_usd,
            entry_fee_usd: self.entry_fee_usd,
            proceeds_usd: self.proceeds_usd,
            exit_fee_usd: self.exit_fee_usd,
        }
    }
}

// ---------------------------------------------------------------------------------------------
// Lists

/// Texts stand in their order.
pub open spec fn in_order(s: Seq<Seq<char>>) -> bool {
    forall|i: int, j: int|
        0 <= i < j < s.len() ==> text::text_before(#[trigger] s[i], #[trigger] s[j]) || s[i] == s[j]
}

fn place_in_order(sorted: &Vec<String>, t: &str) -> (r: usize)
    requires
        in_order(model::texts(sorted@)),
    ensures
        r <= sorted@.len(),
        forall|j: int| 0 <= j < r ==> !text::text_before(t@, #[trigger] model::texts(sorted@)[j]),
        forall|j: int|
            r <= j < sorted@.len() ==> text::text_before(t@, #[trigger] model::texts(sorted@)[j]),
{
    let ghost all = model::texts(sorted@);
    let mut i: usize = 0;
    while i < sorted.len() && !text::is_before(t, sorted[i].as_str())
        invariant
            i <= sorted@.len(),
            all == model::texts(sorted@),
            forall|j: int| 0 <= j < i ==> !text::text_before(t@, #[trigger] all[j]),
        decreases sorted@.len() - i,
    {
        i = i + 1;
    }
    proof {
        if i < sorted@.len() {
            assert forall|j: int| i <= j < sorted@.len() implies text::text_before(
                t@,
                #[trigger] all[j],
            ) by {
                assert(text::text_before(t@, all[i as int]));
                if j > i && all[i as int] != all[j] {
                    text::lemma_text_before_transitive(t@, all[i as int], all[j]);
                }
            }
        }
    }
    i
}

/// Puts texts into their order. They come from sets, whose own order is another each time, and a
/// report that is shuffled cannot be compared.
pub fn sort_texts(v: Vec<String>) -> (r: Vec<String>)
    ensures
        in_order(model::texts(r@)),
        model::texts(r@).to_multiset() == model::texts(v@).to_multiset(),
{
    let ghost given = model::texts(v@);
    let mut rest = v;
    let mut sorted: Vec<String> = Vec::new();
    proof {
        assert(model::texts(sorted@) =~= Seq::empty());
        model::texts(sorted@).to_multiset_ensures();
        assert(model::texts(rest@).to_multiset().add(model::texts(sorted@).to_multiset())
            =~= given.to_multiset());
    }
    while rest.len() > 0
        invariant
            in_order(model::texts(sorted@)),
            model::texts(rest@).to_multiset().add(model::texts(sorted@).to_multiset())
                == given.to_multiset(),
        decreases rest@.len(),
    {
        let ghost before = model::texts(rest@);
        let t = rest.pop().unwrap();
        let ghost old_sorted = model::texts(sorted@);
        let at: usize = place_in_order(&sorted, t.as_str());
        sorted.insert(at, t);
        proof {
            let now = model::texts(sorted@);
            assert(now =~= old_sorted.insert(at as int, t@));
            assert(before =~= model::texts(rest@).push(t@));
            model::texts(rest@).to_multiset_ensures();
            now.to_multiset_ensures();
            assert(now.remove(at as int) =~= old_sorted);
            assert(now[at as int] == t@);
            assert(now.contains(t@));
            assert(now.to_multiset() =~= old_sorted.to_multiset().insert(t@));
            assert(before.to_multiset() =~= model::texts(rest@).to_multiset().insert(t@));
            assert(model::texts(rest@).to_multiset().add(now.to_multiset())
                =~= given.to_multiset());
            assert forall|i: int, j: int| 0 <= i < j < now.len() implies text::text_before(
                #[trigger] now[i],
                #[trigger] now[j],
            ) || now[i] == now[j] by {
                let i0 = if i < at {
                    i
                } else {
                    i - 1
                };
                let j0 = if j < at {
                    j
                } else {
                    j - 1
                };
                if j == at {
                    assert(now[i] == old_sorted[i]);
                    if old_sorted[i] != t@ {
                        text::lemma_text_before_total(t@, old_sorted[i]);
                    }
                } else if i == at {
                    assert(now[j] == old_sorted[j0]);
                } else {
                    assert(now[i] == old_sorted[i0]);
                    assert(now[j] == old_sorted[j0]);
                }
            }
        }
    }
    proof {
        assert(model::texts(rest@) =~= Seq::empty());
        model::texts(rest@).to_multiset_ensures();
        assert(model::texts(sorted@).to_multiset() =~= given.to_multiset());
    }
    sorted
}

/// Where the latest `limit` of a list begin; a limit of zero is none.
pub open spec fn recent_from(len: nat, limit: usize) -> int {
    if limit > 0 && len > limit {
        len - limit
    } else {
        0
    }
}

impl Core {
    /// The latest closed positions, at most `limit` of them.
    pub fn recent_trades(closed: &Vec<ClosedPosition>, limit: usize) -> (r: Vec<ClosedPosition>)
        ensures
            r@ == closed@.skip(recent_from(closed@.len(), limit)),
    {
        let start: usize = if limit > 0 && closed.len() > limit {
            closed.len() - limit
        } else {
            0
        };
        let mut out: Vec<ClosedPosition> = Vec::new();
        let mut i: usize = start;
        while i < closed.len()
            invariant
                start <= i <= closed@.len(),
                out@ == closed@.subrange(start as int, i as int),
            decreases closed@.len() - i,
        {
            out.push(closed[i].clone());
            assert(closed@.subrange(start as int, i + 1) =~= closed@.subrange(
                start as int,
                i as int,
            ).push(closed@[i as int]));
            i = i + 1;
        }
        assert(out@ =~= closed@.skip(start as int));
        out
    }
}

// ---------------------------------------------------------------------------------------------
// Strategies

/// The caps of a strategy, where it has any.
pub open spec fn limit_of(m: CoreModel, name: Seq<char>) -> Option<StrategyLimitModel> {
    if m.config.strategy_limits.dom().contains(name) {
        Some(m.config.strategy_limits[name])
    } else {
        None
    }
}

/// What the engine says of a strategy, or what holds where there is no engine to ask.
pub open spec fn info_or_default(m: CoreModel, info: Option<StrategyInfoModel>) -> StrategyInfoModel {
    match info {
        Some(i) => i,
        None => StrategyInfoModel {
            source: ""@,
            sizing: limits::global_sizing(m.config),
            entry_budget_usd: m.config.size_usd,
            exempt_gates: Seq::empty(),
            timing_floor_sec: None,
            blocked_timing: 0,
            blocked_momentum: 0,
            exempted_timing: 0,
            exempted_momentum: 0,
        },
    }
}

/// What is shown of a strategy.
pub open spec fn strategy_row(
    m: CoreModel,
    name: Seq<char>,
    enabled: Seq<Seq<char>>,
    asked: Option<StrategyInfoModel>,
    positions: Seq<OpenPosition>,
) -> StrategyStatsModel {
    let a = service::accounting_of(m, name);
    let info = info_or_default(m, asked);
    let held = limits::held_by(positions, name);
    StrategyStatsModel {
        name,
        enabled: enabled.contains(name),
        source: info.source,
        open_positions: held.len() as usize,
        open_notional_usd: decimal::total(limits::costs(held)),
        max_open_positions: match limit_of(m, name) {
            Some(l) => l.max_open_positions,
            None => None,
        },
        max_open_notional_usd: match limit_of(m, name) {
            Some(l) => l.max_open_notional_usd,
            None => None,
        },
        sizing: info.sizing,
        entry_budget_usd: info.entry_budget_usd,
        exempt_gates: info.exempt_gates,
        timing_floor_sec: info.timing_floor_sec,
        blocked_timing: info.blocked_timing,
        blocked_momentum: info.blocked_momentum,
        exempted_timing: info.exempted_timing,
        exempted_momentum: info.exempted_momentum,
        orders_placed: a.placed,
        orders_rejected: a.rejected,
        limit_rejected: a.limit_rejected,
        rejection_causes: str_map::ordered(a.rejection_causes),
        closed_trades: a.closed_trades,
        wins: a.wins,
        losses: a.losses,
        fees_usd: a.fees_usd,
        net_pnl_usd: a.net_pnl_usd,
    }
}

fn list_counts(m: &StrMap<u64>) -> (r: Vec<(String, u64)>)
    ensures
        count_rows(r@) == str_map::ordered(m@),
{
    let n: usize = m.len();
    let mut out: Vec<(String, u64)> = Vec::new();
    let mut i: usize = 0;
    while i < n
        invariant
            i <= n,
            n == str_map::ordered(m@).len(),
            out@.len() == i,
            forall|j: int|
                0 <= j < i ==> ((#[trigger] out@[j]).0@, out@[j].1) == str_map::ordered(m@)[j],
        decreases n - i,
    {
        let k = m.key_at(i).clone();
        let v: u64 = *m.value_at(i);
        out.push((k, v));
        i = i + 1;
    }
    assert(count_rows(out@) =~= str_map::ordered(m@));
    out
}

proof fn lemma_no_counts()
    ensures
        str_map::ordered(Map::<Seq<char>, u64>::empty()) == Seq::<(Seq<char>, u64)>::empty(),
{
    let s = Seq::<(Seq<char>, u64)>::empty();
    assert(str_map::keys_rise(s));
    assert(str_map::entries_map(s) =~= Map::empty());
    str_map::lemma_is_ordered(s);
}

/// What each strategy is asked for stands beside its name.
pub open spec fn info_rows(infos: Seq<Option<StrategyInfo>>) -> Seq<Option<StrategyInfoModel>> {
    infos.map_values(
        |x: Option<StrategyInfo>|
            match x {
                Some(i) => Some(i@),
                None => None,
            },
    )
}

/// What is shown of strategies.
pub open spec fn strategy_rows(
    m: CoreModel,
    names: Seq<Seq<char>>,
    enabled: Seq<Seq<char>>,
    infos: Seq<Option<StrategyInfoModel>>,
    positions: Seq<OpenPosition>,
) -> Seq<StrategyStatsModel> {
    Seq::new(names.len(), |i: int| strategy_row(m, names[i], enabled, infos[i], positions))
}

impl Core {
    fn strategy_stat(
        &self,
        name: &String,
        enabled: &Vec<String>,
        info: &Option<StrategyInfo>,
        positions: &Vec<OpenPosition>,
    ) -> (r: StrategyStats)
        requires
            decimal::total_ok(limits::costs(limits::held_by(positions@, name@))),
        ensures
            r@ == strategy_row(
                self@,
                name@,
                model::texts(enabled@),
                match *info {
                    Some(i) => Some(i@),
                    None => None,
                },
                positions@,
            ),
    {
        let held = limits::costs_held_by(positions, name.as_str());
        let (max_open_positions, max_open_notional_usd) = match self.config.strategy_limits.get(
            name.as_str(),
        ) {
            Some(l) => (l.max_open_positions, l.max_open_notional_usd),
            None => (None, None),
        };
        let (placed, rejected, limit_rejected) = match self.strategy_accounting.get(name.as_str()) {
            Some(a) => (a.placed, a.rejected, a.limit_rejected),
            None => (0, 0, 0),
        };
        let (closed_trades, wins, losses) = match self.strategy_accounting.get(name.as_str()) {
            Some(a) => (a.closed_trades, a.wins, a.losses),
            None => (0, 0, 0),
        };
        let (fees_usd, net_pnl_usd) = match self.strategy_accounting.get(name.as_str()) {
            Some(a) => (a.fees_usd, a.net_pnl_usd),
            None => (Decimal::zero(), Decimal::zero()),
        };
        let causes = match self.strategy_accounting.get(name.as_str()) {
            Some(a) => list_counts(&a.rejection_causes),
            None => Vec::new(),
        };
        proof {
            lemma_no_counts();
            if !self@.strategy_accounting.dom().contains(name@) {
                assert(count_rows(causes@) =~= Seq::empty());
            }
        }
        let on = text::is_listed(enabled, name.as_str());
        let told = match info {
            Some(i) => i.clone(),
            None => {
                let none: Vec<String> = Vec::new();
                assert(model::texts(none@) =~= Seq::empty());
                StrategyInfo {
                    source: "".to_owned(),
                    sizing: self.configured_sizing(),
                    entry_budget_usd: self.config.size_usd,
                    exempt_gates: none,
                    timing_floor_sec: None,
                    blocked_timing: 0,
                    blocked_momentum: 0,
                    exempted_timing: 0,
                    exempted_momentum: 0,
                }
            },
        };
        StrategyStats {
            name: name.clone(),
            enabled: on,
            source: told.source,
            open_positions: held.len(),
            open_notional_usd: decimal::sum_of(&held),
            max_open_positions,
            max_open_notional_usd,
            sizing: told.sizing,
            entry_budget_usd: told.entry_budget_usd,
            exempt_gates: told.exempt_gates,
            timing_floor_sec: told.timing_floor_sec,
            blocked_timing: told.blocked_timing,
            blocked_momentum: told.blocked_momentum,
            exempted_timing: told.exempted_timing,
            exempted_momentum: told.exempted_momentum,
            orders_placed: placed,
            orders_rejected: rejected,
            limit_rejected,
            rejection_causes: causes,
            closed_trades,
            wins,
            losses,
            fees_usd,
            net_pnl_usd,
        }
    }

    /// What is shown of each strategy: what it holds, what it may hold, and what became of its
    /// entries and trades. What the engine says of a strategy stands at the strategy's place.
    pub fn strategy_stats(
        &self,
        names: &Vec<String>,
        enabled: &Vec<String>,
        infos: &Vec<Option<StrategyInfo>>,
        positions: &Vec<OpenPosition>,
    ) -> (r: Vec<StrategyStats>)
        requires
            infos@.len() == names@.len(),
            forall|i: int|
                0 <= i < names@.len() ==> decimal::total_ok(
                    limits::costs(limits::held_by(positions@, (#[trigger] names@[i])@)),
                ),
        ensures
            r@.map_values(|s: StrategyStats| s@) == strategy_rows(
                self@,
                model::texts(names@),
                model::texts(enabled@),
                info_rows(infos@),
                positions@,
            ),
    {
        let mut out: Vec<StrategyStats> = Vec::new();
        let mut i: usize = 0;
        while i < names.len()
            invariant
                i <= names@.len(),
                infos@.len() == names@.len(),
                forall|i: int|
                    0 <= i < names@.len() ==> decimal::total_ok(
                        limits::costs(limits::held_by(positions@, (#[trigger] names@[i])@)),
                    ),
                out@.len() == i,
                forall|j: int|
                    0 <= j < i ==> (#[trigger] out@[j])@ == strategy_row(
                        self@,
                        names@[j]@,
                        model::texts(enabled@),
                        info_rows(infos@)[j],
                        positions@,
                    ),
            decreases names@.len() - i,
        {
            out.push(self.strategy_stat(&names[i], enabled, &infos[i], positions));
            i = i + 1;
        }
        assert(out@.map_values(|s: StrategyStats| s@) =~= strategy_rows(
            self@,
            model::texts(names@),
            model::texts(enabled@),
            info_rows(infos@),
            positions@,
        ));
        out
    }
}

/// How often gates stopped a strategy's entries.
#[derive(Debug)]
pub struct BlockedRow {
    pub name: String,
    pub timing: u64,
    pub momentum: u64,
}

/// How often gates stopped the entries of strategies: of those whose entries they did stop, in
/// order.
pub open spec fn blocked_rows(names: Seq<Seq<char>>, infos: Seq<StrategyInfoModel>) -> Seq<
    (Seq<char>, u64, u64),
>
    decreases names.len(),
{
    if names.len() == 0 {
        Seq::empty()
    } else {
        let rest = blocked_rows(names.drop_last(), infos);
        let x = infos[names.len() - 1];
        if x.blocked_timing == 0 && x.blocked_momentum == 0 {
            rest
        } else {
            rest.push((names.last(), x.blocked_timing, x.blocked_momentum))
        }
    }
}

/// Lists how often gates stopped the entries of each strategy.
pub fn blocked_by_strategy(names: &Vec<String>, infos: &Vec<StrategyInfo>) -> (r: Vec<BlockedRow>)
    requires
        infos@.len() == names@.len(),
    ensures
        r@.map_values(|b: BlockedRow| (b.name@, b.timing, b.momentum)) == blocked_rows(
            model::texts(names@),
            infos@.map_values(|i: StrategyInfo| i@),
        ),
{
    let ghost all = model::texts(names@);
    let ghost told = infos@.map_values(|i: StrategyInfo| i@);
    let mut out: Vec<BlockedRow> = Vec::new();
    let mut i: usize = 0;
    proof {
        assert(all.take(0) =~= Seq::empty());
        assert(out@.map_values(|b: BlockedRow| (b.name@, b.timing, b.momentum)) =~= Seq::empty());
    }
    while i < names.len()
        invariant
            i <= names@.len(),
            infos@.len() == names@.len(),
            all == model::texts(names@),
            told == infos@.map_values(|i: StrategyInfo| i@),
            out@.map_values(|b: BlockedRow| (b.name@, b.timing, b.momentum)) == blocked_rows(
                all.take(i as int),
                told,
            ),
        decreases names@.len() - i,
    {
        let x = &infos[i];
        proof {
            assert(all.take(i + 1).drop_last() =~= all.take(i as int));
            assert(told[i as int] == x@);
        }
        if x.blocked_timing != 0 || x.blocked_momentum != 0 {
            let ghost before = out@.map_values(|b: BlockedRow| (b.name@, b.timing, b.momentum));
            let row = BlockedRow {
                name: names[i].clone(),
                timing: x.blocked_timing,
                momentum: x.blocked_momentum,
            };
            out.push(row);
            assert(out@.map_values(|b: BlockedRow| (b.name@, b.timing, b.momentum)) =~= before.push(
                (row.name@, row.timing, row.momentum),
            ));
        }
        i = i + 1;
    }
    assert(all.take(i as int) =~= all);
    out
}

// ---------------------------------------------------------------------------------------------
// Books, rounds and positions

/// A price that is shown: one above zero.
pub open spec fn shown_price(p: Decimal) -> Option<Decimal> {
    if p@ > 0 {
        Some(p)
    } else {
        None
    }
}

/// The measures of a book, as the strategies see them.
#[derive(Clone, Copy, Debug)]
pub struct BookMetrics {
    pub best_bid: Decimal,
    pub best_ask: Decimal,
    pub mid_price: Decimal,
    pub obi: Decimal,
    pub spread: Decimal,
    pub spread_pct: Decimal,
}

/// A level of a book as a panel shows it.
#[derive(Clone, Copy, Debug, PartialEq)]
pub struct BookLevelView {
    pub price: Decimal,
    pub size: Decimal,
}

/// One token's book as a panel shows it. Where no book has come there is nothing to show: a zero
/// would be taken for a price.
#[derive(Debug)]
pub struct BookSideView {
    pub bids: Vec<BookLevelView>,
    pub asks: Vec<BookLevelView>,
    pub best_bid: Option<Decimal>,
    pub best_ask: Option<Decimal>,
    pub mid_price: Option<Decimal>,
    pub obi: Option<Decimal>,
    pub spread: Option<Decimal>,
    pub spread_pct: Option<Decimal>,
}

/// The first levels of a side of a book.
pub open spec fn top_levels(levels: Seq<(Decimal, Decimal)>, max: usize) -> Seq<BookLevelView> {
    Seq::new(
        if levels.len() <= max {
            levels.len()
        } else {
            max as nat
        },
        |i: int| BookLevelView { price: levels[i].0, size: levels[i].1 },
    )
}

fn take_levels(levels: &Vec<(Decimal, Decimal)>, max: usize) -> (r: Vec<BookLevelView>)
    ensures
        r@ == top_levels(levels@, max),
{
    let mut out: Vec<BookLevelView> = Vec::new();
    let mut i: usize = 0;
    while i < levels.len() && i < max
        invariant
            i <= levels@.len(),
            i <= max,
            out@.len() == i,
            forall|j: int|
                0 <= j < i ==> (#[trigger] out@[j]) == (BookLevelView {
                    price: levels@[j].0,
                    size: levels@[j].1,
                }),
        decreases levels@.len() - i,
    {
        let (price, size) = levels[i];
        out.push(BookLevelView { price, size });
        i = i + 1;
    }
    assert(out@ =~= top_levels(levels@, max));
    out
}

/// A book without anything to show.
pub open spec fn is_blank(v: BookSideView) -> bool {
    v.bids@.len() == 0 && v.asks@.len() == 0 && v.best_bid is None && v.best_ask is None
        && v.mid_price is None && v.obi is None && v.spread is None && v.spread_pct is None
}

impl BookSideView {
    /// A book with nothing to show.
    pub fn empty() -> (r: Self)
        ensures
            is_blank(r),
    {
        BookSideView {
            bids: Vec::new(),
            asks: Vec::new(),
            best_bid: None,
            best_ask: None,
            mid_price: None,
            obi: None,
            spread: None,
            spread_pct: None,
        }
    }
}

/// A token's book is shown as it is: nothing where none has come or both its sides are empty, else
/// its first levels and its measures; a bid of zero and an ask of one are no prices.
pub open spec fn shows_book(
    v: BookSideView,
    m: CoreModel,
    token: Seq<char>,
    metrics: BookMetrics,
    max_levels: usize,
) -> bool {
    let b = m.books[token];
    if !m.books.dom().contains(token) || (b.bids.len() == 0 && b.asks.len() == 0) {
        is_blank(v)
    } else {
        &&& v.bids@ == top_levels(b.bids, max_levels)
        &&& v.asks@ == top_levels(b.asks, max_levels)
        &&& v.best_bid == shown_price(metrics.best_bid)
        &&& v.best_ask == if metrics.best_ask@ < crate::entries::one()@ {
            Some(metrics.best_ask)
        } else {
            None
        }
        &&& v.mid_price == shown_price(metrics.mid_price)
        &&& v.obi == Some(metrics.obi)
        &&& v.spread == Some(metrics.spread)
        &&& v.spread_pct == Some(metrics.spread_pct)
    }
}

/// The two books of a market as a panel shows them.
#[derive(Debug)]
pub struct AssetBooksView {
    pub asset: String,
    pub up: BookSideView,
    pub down: BookSideView,
}

impl Core {
    /// One token's book as a panel shows it, from the book that the kernel itself goes by.
    pub fn book_side_view(&self, token_id: &str, metrics: BookMetrics, max_levels: usize) -> (r:
        BookSideView)
        ensures
            shows_book(r, self@, token_id@, metrics, max_levels),
    {
        let b = match self.books.get(token_id) {
            Some(b) => b,
            None => {
                return BookSideView::empty();
            },
        };
        if b.bids.len() == 0 && b.asks.len() == 0 {
            return BookSideView::empty();
        }
        BookSideView {
            bids: take_levels(&b.bids, max_levels),
            asks: take_levels(&b.asks, max_levels),
            best_bid: if metrics.best_bid.is_positive() {
                Some(metrics.best_bid)
            } else {
                None
            },
            best_ask: if metrics.best_ask.less(Decimal::new(1, 0)) {
                Some(metrics.best_ask)
            } else {
                None
            },
            mid_price: if metrics.mid_price.is_positive() {
                Some(metrics.mid_price)
            } else {
                None
            },
            obi: Some(metrics.obi),
            spread: Some(metrics.spread),
            spread_pct: Some(metrics.spread_pct),
        }
    }

    /// The books of a round's markets as a panel shows them. The measures of a market's two books
    /// stand at its place, the upper one first.
    pub fn books_view(
        &self,
        markets: &Vec<CryptoMarket>,
        metrics: &Vec<(BookMetrics, BookMetrics)>,
        max_levels: usize,
    ) -> (r: Vec<AssetBooksView>)
        requires
            metrics@.len() == markets@.len(),
        ensures
            r@.len() == markets@.len(),
            forall|i: int|
                0 <= i < r@.len() ==> {
                    &&& (#[trigger] r@[i]).asset@ == markets@[i].asset@
                    &&& shows_book(
                        r@[i].up,
                        self@,
                        markets@[i].up_token_id@,
                        metrics@[i].0,
                        max_levels,
                    )
                    &&& shows_book(
                        r@[i].down,
                        self@,
                        markets@[i].down_token_id@,
                        metrics@[i].1,
                        max_levels,
                    )
                },
    {
        let mut out: Vec<AssetBooksView> = Vec::new();
        let mut i: usize = 0;
        while i < markets.len()
            invariant
                i <= markets@.len(),
                metrics@.len() == markets@.len(),
                out@.len() == i,
                forall|j: int|
                    0 <= j < i ==> {
                        &&& (#[trigger] out@[j]).asset@ == markets@[j].asset@
                        &&& shows_book(
                            out@[j].up,
                            self@,
                            markets@[j].up_token_id@,
                            metrics@[j].0,
                            max_levels,
                        )
                        &&& shows_book(
                            out@[j].down,
                            self@,
                            markets@[j].down_token_id@,
                            metrics@[j].1,
                            max_levels,
                        )
                    },
            decreases markets@.len() - i,
        {
            let k = &markets[i];
            out.push(
                AssetBooksView {
                    asset: k.asset.clone(),
                    up: self.book_side_view(k.up_token_id.as_str(), metrics[i].0, max_levels),
                    down: self.book_side_view(k.down_token_id.as_str(), metrics[i].1, max_levels),
                },
            );
            i = i + 1;
        }
        out
    }
}

/// The prices of a market as a panel shows them.
#[derive(Debug)]
pub struct MarketPriceView {
    pub asset: String,
    pub up: Decimal,
    pub down: Decimal,
}

/// The price of a token: the middle of its book, or the market's own where there is no book to
/// speak of.
pub open spec fn live_price(mid: Option<Decimal>, market: Decimal) -> Decimal {
    match mid {
        Some(m) => if m@ > 0 {
            m
        } else {
            market
        },
        None => market,
    }
}

fn pick_price(mid: Option<Decimal>, market: Decimal) -> (r: Decimal)
    ensures
        r == live_price(mid, market),
{
    match mid {
        Some(m) => if m.is_positive() {
            m
        } else {
            market
        },
        None => market,
    }
}

/// The prices of a round's markets. The middles of a market's two books stand at its place, the
/// upper one first.
pub fn market_prices(
    markets: &Vec<CryptoMarket>,
    mids: &Vec<(Option<Decimal>, Option<Decimal>)>,
) -> (r: Vec<MarketPriceView>)
    requires
        mids@.len() == markets@.len(),
    ensures
        r@.len() == markets@.len(),
        forall|i: int|
            0 <= i < r@.len() ==> {
                &&& (#[trigger] r@[i]).asset@ == markets@[i].asset@
                &&& r@[i].up == live_price(mids@[i].0, markets@[i].up_price)
                &&& r@[i].down == live_price(mids@[i].1, markets@[i].down_price)
            },
{
    let mut out: Vec<MarketPriceView> = Vec::new();
    let mut i: usize = 0;
    while i < markets.len()
        invariant
            i <= markets@.len(),
            mids@.len() == markets@.len(),
            out@.len() == i,
            forall|j: int|
                0 <= j < i ==> {
                    &&& (#[trigger] out@[j]).asset@ == markets@[j].asset@
                    &&& out@[j].up == live_price(mids@[j].0, markets@[j].up_price)
                    &&& out@[j].down == live_price(mids@[j].1, markets@[j].down_price)
                },
        decreases markets@.len() - i,
    {
        let k = &markets[i];
        out.push(
            MarketPriceView {
                asset: k.asset.clone(),
                up: pick_price(mids[i].0, k.up_price),
                down: pick_price(mids[i].1, k.down_price),
            },
        );
        i = i + 1;
    }
    out
}

/// What the scanner says of the round.
#[derive(Clone, Copy, Debug)]
pub struct RoundState {
    pub slot: i64,
    pub age_sec: i64,
    pub time_left_sec: i64,
    pub can_trade: bool,
}

/// The round as a panel shows it.
#[derive(Debug)]
pub struct RoundView {
    pub slot: i64,
    pub age_sec: i64,
    pub time_left_sec: i64,
    pub markets: usize,
    pub can_trade: bool,
    pub market_prices: Vec<MarketPriceView>,
}

impl Core {
    /// The round as a panel shows it.
    pub fn round_view(
        state: RoundState,
        markets: &Vec<CryptoMarket>,
        mids: &Vec<(Option<Decimal>, Option<Decimal>)>,
    ) -> (r: RoundView)
        requires
            mids@.len() == markets@.len(),
        ensures
            r.slot == state.slot,
            r.age_sec == state.age_sec,
            r.time_left_sec == state.time_left_sec,
            r.can_trade == state.can_trade,
            r.markets == markets@.len(),
            r.market_prices@.len() == markets@.len(),
            forall|i: int|
                0 <= i < r.market_prices@.len() ==> {
                    &&& (#[trigger] r.market_prices@[i]).asset@ == markets@[i].asset@
                    &&& r.market_prices@[i].up == live_price(mids@[i].0, markets@[i].up_price)
                    &&& r.market_prices@[i].down == live_price(mids@[i].1, markets@[i].down_price)
                },
    {
        RoundView {
            slot: state.slot,
            age_sec: state.age_sec,
            time_left_sec: state.time_left_sec,
            markets: markets.len(),
            can_trade: state.can_trade,
            market_prices: market_prices(markets, mids),
        }
    }
}

/// Whole seconds of a span, cut off towards zero.
pub open spec fn whole_seconds(ms: int) -> int {
    if ms >= 0 {
        ms / 1000
    } else {
        -((-ms) / 1000)
    }
}

/// What the position book says of a position's gains.
#[derive(Clone, Copy, Debug)]
pub struct PositionGains {
    pub unrealized_pct: Decimal,
    pub high_pnl_pct: Decimal,
}

/// What is shown of an open position.
pub open spec fn position_row(p: OpenPosition, g: PositionGains, now_ms: i64) -> PositionViewModel {
    PositionViewModel {
        id: p.id@,
        asset: p.asset@,
        direction: exits::direction_text(p.direction),
        strategy: p.strategy@,
        token_id: p.token_id@,
        entry_price: p.entry_price,
        current_price: p.current_price,
        shares: p.shares,
        unrealized_pct: g.unrealized_pct,
        high_pnl_pct: g.high_pnl_pct,
        was_maker_entry: p.was_maker_entry,
        entered_at_ms: p.entered_at_ms,
        expires_at_ms: p.expires_at_ms,
        remaining_sec: whole_seconds(p.expires_at_ms - now_ms) as i64,
        entry_cost_usd: p.flows.entry_cost_usd,
        cost_usd: p.cost_usd,
        entry_fee_usd: p.flows.entry_fee_usd,
        proceeds_usd: p.flows.proceeds_usd,
        exit_fee_usd: p.flows.exit_fee_usd,
    }
}

impl Core {
    /// The open positions as a panel shows them. A position's gains stand at its place.
    pub fn position_views(
        positions: &Vec<OpenPosition>,
        gains: &Vec<PositionGains>,
        now_ms: i64,
    ) -> (r: Vec<PositionView>)
        requires
            gains@.len() == positions@.len(),
        ensures
            r@.map_values(|v: PositionView| v@) == Seq::new(
                positions@.len(),
                |i: int| position_row(positions@[i], gains@[i], now_ms),
            ),
    {
        let mut out: Vec<PositionView> = Vec::new();
        let mut i: usize = 0;
        while i < positions.len()
            invariant
                i <= positions@.len(),
                gains@.len() == positions@.len(),
                out@.len() == i,
                forall|j: int|
                    0 <= j < i ==> (#[trigger] out@[j])@ == position_row(
                        positions@[j],
                        gains@[j],
                        now_ms,
                    ),
            decreases positions@.len() - i,
        {
            let p = &positions[i];
            let span: i128 = p.expires_at_ms as i128 - now_ms as i128;
            let remaining: i64 = if span >= 0 {
                (span / 1000) as i64
            } else {
                (-((-span) / 1000)) as i64
            };
            out.push(
                PositionView {
                    id: p.id.clone(),
                    asset: p.asset.clone(),
                    direction: exits::write_direction(p.direction),
                    strategy: p.strategy.clone(),
                    token_id: p.token_id.clone(),
                    entry_price: p.entry_price,
                    current_price: p.current_price,
                    shares: p.shares,
                    unrealized_pct: gains[i].unrealized_pct,
                    high_pnl_pct: gains[i].high_pnl_pct,
                    was_maker_entry: p.was_maker_entry,
                    entered_at_ms: p.entered_at_ms,
                    expires_at_ms: p.expires_at_ms,
                    remaining_sec: remaining,
                    entry_cost_usd: p.flows.entry_cost_usd,
                    cost_usd: p.cost_usd,
                    entry_fee_usd: p.flows.entry_fee_usd,
                    proceeds_usd: p.flows.proceeds_usd,
                    exit_fee_usd: p.flows.exit_fee_usd,
                },
            );
            i = i + 1;
        }
        assert(out@.map_values(|v: PositionView| v@) =~= Seq::new(
            positions@.len(),
            |i: int| position_row(positions@[i], gains@[i], now_ms),
        ));
        out
    }
}

// ---------------------------------------------------------------------------------------------
// The kernel as a whole

/// The accounting audit as a panel shows it.
#[derive(Debug)]
pub struct AuditView {
    pub ok: bool,
    /// The kernel's own books disagree with each other.
    pub structural_failure: bool,
    pub note: String,
    pub drift_usd: Decimal,
    /// The latest verdict in one line.
    pub summary: String,
    pub halted: bool,
    pub halt_reason: String,
    pub runs: u64,
    pub failures: u64,
    pub anchored: bool,
    /// Settled and not yet redeemed: owed, and not in the balance.
    pub receivable_usd: Decimal,
}

/// A claim as a panel shows it.
#[derive(Debug)]
pub struct ClaimView {
    pub id: String,
    pub condition_id: String,
    pub payout_usd: Decimal,
    pub neg_risk: bool,
    pub shares: Vec<Decimal>,
    pub positions: usize,
    pub attempts: u32,
    pub next_attempt_ms: i64,
    pub manual: bool,
    pub tx_hash: Option<String>,
    pub block_number: Option<u64>,
    pub last_error: Option<String>,
}

/// A claim is shown as it is.
pub open spec fn shows_claim(v: ClaimView, c: ClaimModel) -> bool {
    &&& v.id@ == c.id
    &&& v.condition_id@ == c.condition_id
    &&& v.payout_usd == c.payout_usd
    &&& v.neg_risk == c.neg_risk
    &&& v.shares@ == c.outcome_shares
    &&& v.positions == c.position_ids.len()
    &&& v.attempts == c.attempts
    &&& v.next_attempt_ms == c.next_attempt_ms
    &&& v.manual == c.manual
    &&& model::opt_text(v.tx_hash) == c.tx_hash
    &&& v.block_number == c.block_number
    &&& model::opt_text(v.last_error) == c.last_error
}

/// Settlements and redemptions as a panel shows them.
#[derive(Debug)]
pub struct SettlementView {
    pub settled_positions: usize,
    pub booked_this_session: u64,
    pub receivable_usd: Decimal,
    pub pending_redemptions: usize,
    pub retryable_redemptions: usize,
    pub manual_redemptions: usize,
    pub redeemed_claims: usize,
    pub watched_markets: usize,
    pub blind_since_ms: Option<i64>,
    /// The claim that failed last, its message, and whether it is left to the operator.
    pub last_error: Option<(String, String, bool)>,
    pub claims: Vec<ClaimView>,
}

/// What a panel is told that the kernel does not hold.
#[derive(Debug)]
pub struct StatsInput {
    pub equity: Decimal,
    pub engine_sizing: Option<EffectiveSizing>,
    pub engine_stale_ms: Option<i64>,
    /// The tokens whose trend is confirmed, in any order.
    pub confirmed: Vec<String>,
    pub open_tokens: Vec<String>,
}

/// The kernel as a panel shows it.
#[derive(Debug)]
pub struct EngineStats {
    pub stats: CoreStats,
    pub last_error: Option<LastError>,
    /// The same error as one line of text.
    pub last_error_text: Option<String>,
    pub sweep_failures: u32,
    /// The sweeps in a row that freeze trading.
    pub sweep_freeze_threshold: u32,
    pub self_check: Option<SelfCheckReport>,
    /// Why trading is frozen, where it is.
    pub frozen_reason: Option<String>,
    /// Nothing until the first audit has run.
    pub audit: Option<AuditView>,
    /// How old a book may be for the engine to go by it; zero switches the check off.
    pub max_stale_ms: i64,
    pub staleness_checked: bool,
    pub sizing: SizingView,
    pub exit_reasons: ExitReasonsView,
    pub settlement: SettlementView,
    /// The tokens whose trend is confirmed, in order.
    pub confirmed: Vec<String>,
}

/// A verdict is shown as it is, with how the audit stands and with what is owed.
pub open spec fn shows_verdict(v: AuditView, report: AuditReportModel, m: CoreModel) -> bool {
    &&& v.ok == report.ok
    &&& v.structural_failure == report.structural_failure
    &&& v.note@ == report.note
    &&& v.drift_usd == report.drift_usd
    &&& v.summary@ == report.summary
    &&& v.halted == m.audit.halted
    &&& v.halt_reason@ == m.audit.halt_reason
    &&& v.runs == m.audit.runs
    &&& v.failures == m.audit.failures
    &&& v.anchored == (m.audit.anchor is Some)
    &&& v.receivable_usd == settlement::payouts_sum(str_map::ordered(m.settlement.claims))
}

/// The latest audit is shown; nothing until the first one has run.
pub open spec fn shows_audit(r: Option<AuditView>, m: CoreModel) -> bool {
    match m.audit.report {
        Some(report) => r matches Some(v) && shows_verdict(v, report, m),
        None => r is None,
    }
}

/// Settlements and redemptions are shown as they stand.
pub open spec fn shows_settlement(v: SettlementView, m: CoreModel, as_of_ms: i64) -> bool {
    let claims = str_map::ordered(m.settlement.claims);
    &&& v.settled_positions == m.settlement.applied.len()
    &&& v.booked_this_session == m.settlement.booked
    &&& v.receivable_usd == settlement::payouts_sum(claims)
    &&& v.pending_redemptions == m.settlement.claims.len()
    &&& v.retryable_redemptions == settlement::count_manual(claims, false)
    &&& v.manual_redemptions == settlement::count_manual(claims, true)
    &&& v.redeemed_claims == m.settlement.redeemed.len()
    &&& v.watched_markets == m.settlement.queries.len()
    &&& match settling::silent_since(m.settlement, as_of_ms) {
        Some(t) => v.blind_since_ms matches Some(x) && x == t,
        None => v.blind_since_ms is None,
    }
    &&& match settlement::last_failed(claims) {
        Some(c) => v.last_error matches Some(e) && e.0@ == c.id && Some(e.1@) == c.last_error
            && e.2 == c.manual,
        None => v.last_error is None,
    }
    &&& v.claims@.len() == claims.len()
    &&& forall|i: int|
        0 <= i < v.claims@.len() ==> shows_claim(#[trigger] v.claims@[i], claims[i].1)
}

/// The age of a book that the engine goes by: its own, or the settings' where there is no engine.
pub open spec fn staleness(m: CoreModel, engine: Option<i64>) -> i64 {
    match engine {
        Some(ms) => ms,
        None => m.config.max_orderbook_stale_ms,
    }
}

/// The sizing in force: the engine's, or the settings' where there is no engine.
pub open spec fn sizing_in_force(m: CoreModel, engine: Option<EffectiveSizing>) -> EffectiveSizing {
    match engine {
        Some(g) => g,
        None => limits::global_sizing(m.config),
    }
}

/// The kernel is shown as it is.
pub open spec fn shows_stats(
    v: EngineStats,
    m: CoreModel,
    input: StatsInput,
    as_of_ms: i64,
) -> bool {
    &&& v.stats == m.stats
    &&& match m.last_error {
        Some(e) => {
            &&& v.last_error matches Some(x)
            &&& x@ == e
            &&& v.last_error_text matches Some(t)
            &&& t@ == e.code.spec_name() + ": "@ + e.message
        },
        None => v.last_error is None && v.last_error_text is None,
    }
    &&& v.sweep_failures == m.consecutive_sweep_failures
    &&& v.sweep_freeze_threshold == rejections::SWEEP_FAILURE_FREEZE
    &&& match m.last_self_check {
        Some(c) => v.self_check matches Some(x) && x@ == c,
        None => v.self_check is None,
    }
    &&& model::opt_text(v.frozen_reason) == m.kill_reason
    &&& shows_audit(v.audit, m)
    &&& v.max_stale_ms == staleness(m, input.engine_stale_ms)
    &&& v.staleness_checked == (v.max_stale_ms > 0)
    &&& limits::shows_sizing(
        v.sizing,
        input.equity,
        sizing_in_force(m, input.engine_sizing),
        m.config.risk,
    )
    &&& exit_reasons::shows_reasons(
        v.exit_reasons,
        m.exit_reasons,
        model::texts(input.open_tokens@),
    )
    &&& shows_settlement(v.settlement, m, as_of_ms)
    &&& in_order(model::texts(v.confirmed@))
    &&& model::texts(v.confirmed@).to_multiset() == model::texts(
        input.confirmed@,
    ).to_multiset()
}

impl Core {
    /// The latest audit as a panel shows it; nothing until the first one has run.
    pub fn accounting_audit_view(&self) -> (r: Option<AuditView>)
        requires
            self.wf(),
            self@.audit.report is Some ==> settlement::payouts_sum_ok(
                str_map::ordered(self@.settlement.claims),
            ),
        ensures
            shows_audit(r, self@),
    {
        match &self.audit.report {
            Some(x) => Some(
                AuditView {
                    ok: x.ok,
                    structural_failure: x.structural_failure,
                    note: x.note.clone(),
                    drift_usd: x.drift_usd,
                    summary: x.summary.clone(),
                    halted: self.audit.halted,
                    halt_reason: self.audit.halt_reason.clone(),
                    runs: self.audit.runs,
                    failures: self.audit.failures,
                    anchored: self.audit.anchor.is_some(),
                    receivable_usd: self.settlement.receivable_usd(),
                },
            ),
            None => None,
        }
    }

    fn claim_views(&self) -> (r: Vec<ClaimView>)
        requires
            self.wf(),
        ensures
            r@.len() == str_map::ordered(self@.settlement.claims).len(),
            forall|i: int|
                0 <= i < r@.len() ==> shows_claim(
                    #[trigger] r@[i],
                    str_map::ordered(self@.settlement.claims)[i].1,
                ),
    {
        let claims = self.settlement.claims();
        let ghost s = str_map::ordered(self@.settlement.claims);
        let mut out: Vec<ClaimView> = Vec::new();
        let mut i: usize = 0;
        while i < claims.len()
            invariant
                i <= claims@.len(),
                claims@.len() == s.len(),
                forall|j: int| 0 <= j < claims@.len() ==> (#[trigger] claims@[j])@ == s[j].1,
                out@.len() == i,
                forall|j: int| 0 <= j < i ==> shows_claim(#[trigger] out@[j], s[j].1),
            decreases claims@.len() - i,
        {
            let c = claims[i];
            assert(c@ == s[i as int].1);
            out.push(
                ClaimView {
                    id: c.id.clone(),
                    condition_id: c.condition_id.clone(),
                    payout_usd: c.payout_usd,
                    neg_risk: c.neg_risk,
                    shares: model::clone_decimals(&c.outcome_shares),
                    positions: c.position_ids.len(),
                    attempts: c.attempts,
                    next_attempt_ms: c.next_attempt_ms,
                    manual: c.manual,
                    tx_hash: c.tx_hash.clone(),
                    block_number: c.block_number,
                    last_error: c.last_error.clone(),
                },
            );
            i = i + 1;
        }
        out
    }

    /// Settlements and redemptions as a panel shows them.
    pub fn settlement_view(&self, as_of_ms: i64) -> (r: SettlementView)
        requires
            self.wf(),
            settlement::payouts_sum_ok(str_map::ordered(self@.settlement.claims)),
        ensures
            shows_settlement(r, self@, as_of_ms),
    {
        let last_error = match self.settlement.last_error() {
            Some(e) => Some((e.0.to_owned(), e.1.to_owned(), e.2)),
            None => None,
        };
        SettlementView {
            settled_positions: self.settlement.applied_count(),
            booked_this_session: self.settlement.booked_this_session(),
            receivable_usd: self.settlement.receivable_usd(),
            pending_redemptions: self.settlement.pending_claim_count(),
            retryable_redemptions: self.settlement.retryable_claim_count(),
            manual_redemptions: self.settlement.manual_claim_count(),
            redeemed_claims: self.settlement.redeemed_count(),
            watched_markets: self.settlement.tracked_markets(),
            blind_since_ms: self.settlement.blind_since_ms(as_of_ms),
            last_error,
            claims: self.claim_views(),
        }
    }

    /// The kernel as a panel shows it, as of an instant.
    pub fn engine_stats_at(&self, input: &StatsInput, as_of_ms: i64) -> (r: EngineStats)
        requires
            self.wf(),
            settlement::payouts_sum_ok(str_map::ordered(self@.settlement.claims)),
            limits::sizing_ok(
                input.equity,
                sizing_in_force(self@, input.engine_sizing),
                self@.config.risk,
            ),
        ensures
            shows_stats(r, self@, *input, as_of_ms),
    {
        let (last_error, last_error_text) = match &self.last_error {
            Some(e) => (Some(e.clone()), Some(e.legacy_message())),
            None => (None, None),
        };
        let max_stale_ms: i64 = match input.engine_stale_ms {
            Some(ms) => ms,
            None => self.config.max_orderbook_stale_ms,
        };
        EngineStats {
            stats: self.stats,
            last_error,
            last_error_text,
            sweep_failures: self.consecutive_sweep_failures,
            sweep_freeze_threshold: rejections::SWEEP_FAILURE_FREEZE,
            self_check: match &self.last_self_check {
                Some(c) => Some(c.clone()),
                None => None,
            },
            frozen_reason: self.kill_reason.clone(),
            audit: self.accounting_audit_view(),
            max_stale_ms,
            staleness_checked: max_stale_ms > 0,
            sizing: self.sizing_view(input.equity, input.engine_sizing),
            exit_reasons: self.exit_reasons.exit_reasons_view(&input.open_tokens),
            settlement: self.settlement_view(as_of_ms),
            confirmed: sort_texts(model::clone_texts(&input.confirmed)),
        }
    }
}

// ---------------------------------------------------------------------------------------------
// Asking beforehand

impl Core {
    /// What is shown of each strategy, where what they hold stays in range in all.
    pub fn checked_strategy_stats(
        &self,
        names: &Vec<String>,
        enabled: &Vec<String>,
        infos: &Vec<Option<StrategyInfo>>,
        positions: &Vec<OpenPosition>,
    ) -> (r: Option<Vec<StrategyStats>>)
        requires
            infos@.len() == names@.len(),
        ensures
            match r {
                Some(rows) => rows@.map_values(|s: StrategyStats| s@) == strategy_rows(
                    self@,
                    model::texts(names@),
                    model::texts(enabled@),
                    info_rows(infos@),
                    positions@,
                ),
                None => exists|i: int|
                    0 <= i < names@.len() && !decimal::total_ok(
                        limits::costs(limits::held_by(positions@, (#[trigger] names@[i])@)),
                    ),
            },
    {
        let mut i: usize = 0;
        while i < names.len()
            invariant
                i <= names@.len(),
                forall|j: int|
                    0 <= j < i ==> decimal::total_ok(
                        limits::costs(limits::held_by(positions@, (#[trigger] names@[j])@)),
                    ),
            decreases names@.len() - i,
        {
            let held = limits::costs_held_by(positions, names[i].as_str());
            if !decimal::sums_fit(&held) {
                assert(!decimal::total_ok(
                    limits::costs(limits::held_by(positions@, names@[i as int]@)),
                ));
                return None;
            }
            i = i + 1;
        }
        Some(self.strategy_stats(names, enabled, infos, positions))
    }

    /// The latest audit as a panel shows it, where what is owed stays in range.
    pub fn checked_accounting_audit_view(&self) -> (r: Option<Option<AuditView>>)
        requires
            self.wf(),
        ensures
            match r {
                Some(v) => shows_audit(v, self@),
                None => !settlement::payouts_sum_ok(str_map::ordered(self@.settlement.claims)),
            },
    {
        if self.settlement.checked_receivable_usd().is_some() {
            Some(self.accounting_audit_view())
        } else {
            None
        }
    }

    /// Settlements and redemptions as a panel shows them, where what is owed stays in range.
    pub fn checked_settlement_view(&self, as_of_ms: i64) -> (r: Option<SettlementView>)
        requires
            self.wf(),
        ensures
            match r {
                Some(v) => shows_settlement(v, self@, as_of_ms),
                None => !settlement::payouts_sum_ok(str_map::ordered(self@.settlement.claims)),
            },
    {
        if self.settlement.checked_receivable_usd().is_some() {
            Some(self.settlement_view(as_of_ms))
        } else {
            None
        }
    }

    /// The kernel as a panel shows it, where what is owed and the bounds of one order stay in range.
    pub fn checked_engine_stats_at(&self, input: &StatsInput, as_of_ms: i64) -> (r: Option<
        EngineStats,
    >)
        requires
            self.wf(),
        ensures
            match r {
                Some(v) => shows_stats(v, self@, *input, as_of_ms),
                None => !settlement::payouts_sum_ok(str_map::ordered(self@.settlement.claims))
                    || !limits::sizing_ok(
                    input.equity,
                    sizing_in_force(self@, input.engine_sizing),
                    self@.config.risk,
                ),
            },
    {
        let g = match input.engine_sizing {
            Some(g) => g,
            None => self.configured_sizing(),
        };
        if self.settlement.checked_receivable_usd().is_some() && limits::sizing_fits(
            input.equity,
            g,
            self.config.risk,
        ) {
            Some(self.engine_stats_at(input, as_of_ms))
        } else {
            None
        }
    }
}

} // verus!
