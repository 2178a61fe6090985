//! What is read and shown: numbers as text, settings, the libraries of a start, and the panel.
use vstd::prelude::*;

use crate::config;
use crate::config::{
    CoreConfigModel, PositionConfig, RiskConfig, ShadowEvolutionTuningModel, ShadowSettingsModel,
    SpreadArbKnobs, StrategyLimitModel,
};
use crate::decimal;
use crate::decimal::Decimal;
use crate::exits;
use crate::limits;
use crate::model;
use crate::model::{Mode, OpenPosition};
use crate::service;
use crate::service::CoreModel;
use crate::settlement;
use crate::startup;
use crate::startup::AutoLoad;
use crate::str_map;
use crate::strategies;
use crate::strategies::LoadedLibrary;
use crate::text;
use crate::views;
use crate::views::{
    BookMetrics, BookSideView, EngineStats, PositionGains, SettlementView, StatsInput,
    StrategyInfoModel,
};

verus! {

// ---------------------------------------------------------------------------------------------
// Numbers as text

/// The number that a row of digits reads as.
pub open spec fn reads_as(s: Seq<char>) -> int
    decreases s.len(),
{
    if s.len() == 0 {
        0
    } else {
        10 * reads_as(s.drop_last()) + (s.last() as int - '0' as int)
    }
}

proof fn lemma_digit(n: nat)
    requires
        n < 10,
    ensures
        text::digit(n) as int - '0' as int == n,
{
}

/// A number is read back from its digits.
pub proof fn law_digits_are_read_back(n: nat)
    ensures
        reads_as(text::nat_text(n)) == n,
    decreases n,
{
    if n < 10 {
        lemma_digit(n);
        let s = text::nat_text(n);
        assert(s.drop_last() =~= Seq::empty());
        reveal_with_fuel(reads_as, 2);
    } else {
        law_digits_are_read_back(n / 10);
        lemma_digit(n % 10);
        assert(text::nat_text(n).drop_last() =~= text::nat_text(n / 10));
    }
}

/// An integer below zero is written like the one above it with a minus in front, and no other is.
pub proof fn law_a_minus_stands_before_what_is_below_zero(n: int)
    ensures
        n >= 0 ==> reads_as(text::int_text(n)) == n && text::int_text(n)[0] != '-',
        n < 0 ==> text::int_text(n) == seq!['-'] + text::int_text(-n),
{
    if n >= 0 {
        law_digits_are_read_back(n as nat);
        text::lemma_nat_text_digits(n as nat);
    }
}

proof fn lemma_last_digits(n: nat, k: nat)
    requires
        n < decimal::pow10(k),
    ensures
        decimal::last_digits(n, k).len() == k,
        reads_as(decimal::last_digits(n, k)) == n,
    decreases k,
{
    if k > 0 {
        let p = decimal::pow10((k - 1) as nat);
        assert(n / 10 < p) by (nonlinear_arith)
            requires
                n < 10 * p,
        ;
        lemma_last_digits(n / 10, (k - 1) as nat);
        lemma_digit(n % 10);
        assert(decimal::last_digits(n, k).drop_last() =~= decimal::last_digits(
            n / 10,
            (k - 1) as nat,
        ));
    }
}

/// A text is that of a number: a minus where it is below zero, its whole part, and as many digits behind
/// the point as its scale says, which read together as the number.
pub open spec fn spells(t: Seq<char>, whole: Seq<char>, part: Seq<char>, m: int, scale: nat) -> bool {
    &&& t == (if m < 0 {
        seq!['-']
    } else {
        Seq::empty()
    }) + whole + (if scale > 0 {
        seq!['.'] + part
    } else {
        Seq::empty()
    })
    &&& whole.len() > 0
    &&& part.len() == scale
    &&& reads_as(whole) * decimal::pow10(scale) + reads_as(part) == if m < 0 {
        -m
    } else {
        m
    }
}

/// The text of a number reads as the number, digit by digit.
pub proof fn law_a_number_is_read_back_from_its_text(mantissa: i128, scale: u32)
    ensures
        exists|whole: Seq<char>, part: Seq<char>| #[trigger]
            spells(
                decimal::decimal_text(mantissa, scale),
                whole,
                part,
                mantissa as int,
                scale as nat,
            ),
{
    let m = mantissa as int;
    let n: nat = (if m < 0 {
        -m
    } else {
        m
    }) as nat;
    decimal::lemma_pow10_positive(scale as nat);
    let t = decimal::pow10(scale as nat) as nat;
    let whole = text::nat_text(n / t);
    let part = decimal::last_digits(n % t, scale as nat);
    vstd::arithmetic::div_mod::lemma_fundamental_div_mod(n as int, t as int);
    law_digits_are_read_back(n / t);
    text::lemma_nat_text_digits(n / t);
    lemma_last_digits(n % t, scale as nat);
    assert(t * (n / t) == (n / t) * t) by (nonlinear_arith);
    if scale == 0 {
        assert(n % t == 0);
    }
    assert(spells(decimal::decimal_text(mantissa, scale), whole, part, m, scale as nat));
}

// ---------------------------------------------------------------------------------------------
// Settings

/// What the tuning names it sets, and what it does not name stays at its default; a step is cut to the
/// ceiling, and a deep variant moves at least one knob. Without a tuning only the switch counts.
pub proof fn law_a_tuning_sets_what_it_names(
    d: ShadowSettingsModel,
    enabled: bool,
    t: ShadowEvolutionTuningModel,
    ceiling: Decimal,
)
    ensures
        ({
            let r = config::tuned(d, enabled, Some(t), ceiling);
            &&& r.enabled == enabled
            &&& t.min_sample_count matches Some(x) ==> r.min_sample_count == x
            &&& t.min_sample_count is None ==> r.min_sample_count == d.min_sample_count
            &&& t.min_win_rate_improvement matches Some(x) ==> r.min_win_rate_improvement == x
            &&& t.min_win_rate_improvement is None ==> r.min_win_rate_improvement
                == d.min_win_rate_improvement
            &&& t.min_profit_factor_improvement matches Some(x) ==> r.min_profit_factor_improvement
                == x
            &&& t.min_profit_factor_improvement is None ==> r.min_profit_factor_improvement
                == d.min_profit_factor_improvement
            &&& t.min_observation_secs matches Some(x) ==> r.min_observation_secs == x
            &&& t.min_observation_secs is None ==> r.min_observation_secs == d.min_observation_secs
            &&& t.cooldown_secs matches Some(x) ==> r.cooldown_secs == x
            &&& t.cooldown_secs is None ==> r.cooldown_secs == d.cooldown_secs
            &&& t.variant_count matches Some(x) ==> r.variant_count == x
            &&& t.variant_count is None ==> r.variant_count == d.variant_count
            &&& t.evaluation_window_secs matches Some(x) ==> r.evaluation_window_secs == x
            &&& t.evaluation_window_secs is None ==> r.evaluation_window_secs
                == d.evaluation_window_secs
            &&& t.max_gradient matches Some(x) ==> r.max_gradient@ == if x@ < ceiling@ {
                x@
            } else {
                ceiling@
            }
            &&& t.max_gradient is None ==> r.max_gradient == d.max_gradient
            &&& t.audit_dir matches Some(x) ==> r.audit_dir == x
            &&& t.audit_dir is None ==> r.audit_dir == d.audit_dir
            &&& t.auto_evolve matches Some(x) ==> r.auto_evolve == x
            &&& t.auto_evolve is None ==> r.auto_evolve == d.auto_evolve
            &&& t.evolution_cycle_secs matches Some(x) ==> r.evolution_cycle_secs == x
            &&& t.evolution_cycle_secs is None ==> r.evolution_cycle_secs == d.evolution_cycle_secs
            &&& t.proposal_ttl_secs matches Some(x) ==> r.proposal_ttl_secs == x
            &&& t.proposal_ttl_secs is None ==> r.proposal_ttl_secs == d.proposal_ttl_secs
            &&& t.deep_dims matches Some(x) ==> r.deep_dims == if x > 1 {
                x
            } else {
                1
            }
            &&& t.deep_dims is None ==> r.deep_dims == d.deep_dims
        }),
        config::tuned(d, enabled, None, ceiling) == (ShadowSettingsModel { enabled, ..d }),
{
}

/// A knob of the spread strategy that the settings name stands as they name it, and every other one as
/// it shipped; how long a trend is confirmed is always the settings'.
pub proof fn law_a_knob_stands_as_it_is_set(m: CoreConfigModel, shipped: SpreadArbKnobs)
    ensures
        ({
            let r = config::spread_knobs(m, shipped);
            &&& r.trend_confirm_sec == m.trend_confirm_sec
            &&& m.spread_arb_trend_entry_factor matches Some(x) ==> r.trend_entry_factor == x
            &&& m.spread_arb_trend_entry_factor is None ==> r.trend_entry_factor
                == shipped.trend_entry_factor
            &&& m.spread_arb_entry_min_obi matches Some(x) ==> r.entry_min_obi == x
            &&& m.spread_arb_entry_min_obi is None ==> r.entry_min_obi == shipped.entry_min_obi
            &&& m.spread_arb_entry_max_spread_pct matches Some(x) ==> r.entry_max_spread_pct == x
            &&& m.spread_arb_entry_max_spread_pct is None ==> r.entry_max_spread_pct
                == shipped.entry_max_spread_pct
            &&& m.spread_arb_entry_dip_max_pct matches Some(x) ==> r.entry_dip_max_pct == x
            &&& m.spread_arb_entry_dip_max_pct is None ==> r.entry_dip_max_pct
                == shipped.entry_dip_max_pct
            &&& m.spread_arb_entry_bounce_min_pct matches Some(x) ==> r.entry_bounce_min_pct == x
            &&& m.spread_arb_entry_bounce_min_pct is None ==> r.entry_bounce_min_pct
                == shipped.entry_bounce_min_pct
            &&& m.spread_arb_entry_bounce_window_sec matches Some(x) ==> r.entry_bounce_window_sec
                == x
            &&& m.spread_arb_entry_bounce_window_sec is None ==> r.entry_bounce_window_sec
                == shipped.entry_bounce_window_sec
        }),
{
}

/// A strategy is sized by its own limit, and only a strategy that has one is.
pub proof fn law_a_strategy_is_sized_by_its_own_limit(
    all: Map<Seq<char>, StrategyLimitModel>,
    name: Seq<char>,
)
    ensures
        config::sizes_of(all).dom().contains(name) <==> all.dom().contains(name),
        all.dom().contains(name) ==> {
            let s = config::sizes_of(all)[name];
            let l = all[name];
            &&& s.size_usd == l.size_usd
            &&& s.min_shares == l.min_shares
            &&& s.max_shares == l.max_shares
            &&& s.size_weight == l.size_weight
            &&& s.size_pct == l.size_pct
        },
{
}

/// A kernel that was told nothing risks nothing: it trades on paper, with no strategy switched on and no
/// feed, keeps the brake of the audit on, charges the shipped fees, and lets its simulated redemptions
/// land; and it takes the limits that it is handed as they are.
pub proof fn law_a_kernel_that_was_told_nothing_risks_nothing(
    risk: RiskConfig,
    positions: PositionConfig,
    max_orderbook_stale_ms: i64,
)
    ensures
        ({
            let c = config::default_config(risk, positions, max_orderbook_stale_ms);
            &&& c.mode == Mode::Dry
            &&& c.risk == risk
            &&& c.positions == positions
            &&& c.max_orderbook_stale_ms == max_orderbook_stale_ms
            &&& !c.engine_enabled
            &&& c.discovery_enabled
            &&& c.binance_assets == c.assets
            &&& c.entry_maker_timeout_ms == c.default_maker_timeout_ms
            &&& c.dry_seed_balance@ == 10_000 * decimal::one_unit()
            &&& c.strategy_dir is None && c.market_plugin is None && c.event_archive_path is None
            &&& c.audit_log_path is None && c.applied_log_path is None && c.settlement_log_path is None
            &&& c.trade_log_path is Some && c.order_log_path is Some && c.position_log_path is Some
            &&& !c.feed_ws_enabled
            &&& !c.shadow_evolution_enabled
            &&& !c.allow_zero_strategies
            &&& c.enabled_strategies.len() == 0
            &&& c.requested_strategies.len() == 0
            &&& c.disabled_strategies.len() == 0
            &&& c.auto_exits_enabled
            &&& c.audit_halt_entries
            &&& c.audit_interval_sec > 0
            &&& !c.fee_schedule_replay
            &&& c.dry_redeem_fail == 0
            &&& !c.dry_redeem_manual
            &&& c.min_shares@ <= c.max_shares@
            &&& forall|k: Seq<char>| !(#[trigger] c.strategy_limits.dom().contains(k))
        }),
{
    decimal::lemma_parts_of((10_000, 0));
    reveal_with_fuel(decimal::pow10, 30);
}

// ---------------------------------------------------------------------------------------------
// The libraries of a start

proof fn lemma_before_dot(x: Seq<char>, rest: Seq<char>)
    requires
        forall|i: int| 0 <= i < x.len() ==> #[trigger] x[i] != '.',
    ensures
        startup::before_dot(x + seq!['.'] + rest) == x,
        startup::before_dot(x) == x,
    decreases x.len(),
{
    let s = x + seq!['.'] + rest;
    if x.len() == 0 {
        assert(s[0] == '.');
        assert(startup::before_dot(s) =~= x);
        assert(startup::before_dot(x) =~= x);
    } else {
        let y = x.skip(1);
        assert forall|i: int| 0 <= i < y.len() implies #[trigger] y[i] != '.' by {
            assert(x[i + 1] != '.');
        }
        lemma_before_dot(y, rest);
        assert(s.skip(1) =~= y + seq!['.'] + rest);
        assert(s[0] == x[0]);
        assert(x[0] != '.');
        assert(seq![x[0]] + y =~= x);
    }
}

/// The example strategy's artifact is known by the stem of its file, whatever stands behind the first
/// full stop: the example's own name, or that name with a build hash behind a dash. A name that merely
/// ends in it is another strategy's.
pub proof fn law_the_example_is_known_by_its_stem(x: Seq<char>, extension: Seq<char>)
    requires
        forall|i: int| 0 <= i < x.len() ==> #[trigger] x[i] != '.',
    ensures
        startup::is_example("lib"@ + x + seq!['.'] + extension) <==> x == "dog_strategy"@
            || text::starts(x, "dog_strategy-"@),
{
    reveal_strlit("lib");
    let name = "lib"@ + x + seq!['.'] + extension;
    lemma_before_dot(x, extension);
    assert(name.subrange(0, "lib"@.len() as int) =~= "lib"@);
    assert(text::starts(name, "lib"@));
    assert(name.skip("lib"@.len() as int) =~= x + seq!['.'] + extension);
}

/// A library is loaded just where its file is one, and not one that only tests load; hidden directories,
/// build directories and those of tests are passed over.
pub proof fn law_only_libraries_are_loaded(name: Seq<char>, extension: Option<Seq<char>>)
    ensures
        startup::loads_file(Some(name), extension) ==> extension == Some("dylib"@) || extension
            == Some("so"@),
        text::occurs(name, "probe"@) || text::occurs(name, "devcheck"@) || startup::is_example(name)
            ==> !startup::loads_file(Some(name), extension) && startup::skips_directory(name),
        (extension == Some("dylib"@) || extension == Some("so"@)) && !text::occurs(name, "probe"@)
            && !text::occurs(name, "devcheck"@) && !startup::is_example(name)
            ==> startup::loads_file(Some(name), extension),
        extension == Some("dylib"@) || extension == Some("so"@) ==> startup::loads_file(
            None,
            extension,
        ),
        text::starts(name, "."@) || name == "deps"@ || name == "build"@ || name == "incremental"@
            ==> startup::skips_directory(name),
        startup::skips_directory(name) ==> text::starts(name, "."@) || name == "deps"@ || name
            == "build"@ || name == "incremental"@ || text::occurs(name, "probe"@) || text::occurs(
            name,
            "devcheck"@,
        ) || startup::is_example(name),
{
}

/// The shipped legs are loaded first, in their own order: the spread arbitrage, the trend, the mean
/// reversion, and then all others.
pub proof fn law_the_shipped_legs_are_loaded_first(a: Seq<Seq<char>>, b: Seq<Seq<char>>)
    requires
        a.len() > 0,
        b.len() > 0,
    ensures
        text::occurs(a.last(), "spread_arb"@) && !text::occurs(b.last(), "spread_arb"@)
            ==> startup::loads_before(a, b) && !startup::loads_before(b, a),
        !text::occurs(a.last(), "spread_arb"@) && !text::occurs(b.last(), "spread_arb"@) ==> {
            &&& text::occurs(a.last(), "trend_follow"@) && !text::occurs(b.last(), "trend_follow"@)
                ==> startup::loads_before(a, b) && !startup::loads_before(b, a)
            &&& !text::occurs(a.last(), "trend_follow"@) && !text::occurs(
                b.last(),
                "trend_follow"@,
            ) && text::occurs(a.last(), "mean_reversion"@) && !text::occurs(
                b.last(),
                "mean_reversion"@,
            ) ==> startup::loads_before(a, b) && !startup::loads_before(b, a)
        },
{
}

/// A library that was registered is never read as one that failed: its receipt says so, whatever it
/// declares.
pub proof fn law_a_registered_library_did_not_fail(l: LoadedLibrary)
    ensures
        startup::load_verdict(strategies::load_text(l)) != AutoLoad::Failed,
{
    let receipt = strategies::load_text(l);
    let part = "registered into the engine dispatch"@;
    let mid = " registered into the engine dispatch (disabled"@;
    reveal_strlit("registered into the engine dispatch");
    reveal_strlit(" registered into the engine dispatch (disabled");
    let front = l.name@ + "@"@ + l.version@;
    let at: int = front.len() as int + 1;
    assert(mid.subrange(1, 1 + part.len() as int) =~= part);
    assert(receipt.subrange(at, at + part.len()) =~= part) by {
        assert forall|i: int| 0 <= i < part.len() implies #[trigger] receipt[at + i] == part[i] by {
            assert(receipt[at + i] == mid[1 + i]);
            assert(mid.subrange(1, 1 + part.len() as int)[i] == part[i]);
        }
    }
    assert(text::occurs_at(receipt, part, at));
}

proof fn lemma_asked_for(requested: Seq<Seq<char>>, disabled: Seq<Seq<char>>, name: Seq<char>)
    ensures
        startup::asked_for(requested, disabled).contains(name) <==> requested.contains(name)
            && !disabled.contains(name),
    decreases requested.len(),
{
    if requested.len() > 0 {
        let front = requested.drop_last();
        lemma_asked_for(front, disabled, name);
        let rest = startup::asked_for(front, disabled);
        let all = startup::asked_for(requested, disabled);
        if rest.contains(name) {
            let i = choose|i: int| 0 <= i < rest.len() && rest[i] == name;
            assert(all[i] == name);
            let j = choose|j: int| 0 <= j < front.len() && front[j] == name;
            assert(requested[j] == name);
        }
        if requested.contains(name) {
            let j = choose|j: int| 0 <= j < requested.len() && requested[j] == name;
            if j < front.len() {
                assert(front[j] == name);
            } else if !disabled.contains(name) {
                assert(all[all.len() - 1] == name);
            }
        }
        if all.contains(name) && !rest.contains(name) {
            let i = choose|i: int| 0 <= i < all.len() && all[i] == name;
            if i < rest.len() {
                assert(rest[i] == name);
            }
            assert(requested[requested.len() - 1] == name);
        }
    }
}

proof fn lemma_resolved(names: Seq<Seq<char>>, registered: Seq<Seq<char>>)
    ensures
        startup::resolved_count(names, registered) <= names.len(),
        startup::resolved_count(names, registered) > 0 <==> exists|i: int|
            0 <= i < names.len() && registered.contains(#[trigger] names[i]),
    decreases names.len(),
{
    if names.len() > 0 {
        let front = names.drop_last();
        lemma_resolved(front, registered);
        assert(names[names.len() - 1] == names.last());
        if exists|i: int| 0 <= i < front.len() && registered.contains(#[trigger] front[i]) {
            let i = choose|i: int| 0 <= i < front.len() && registered.contains(#[trigger] front[i]);
            assert(names[i] == front[i]);
        }
        if exists|i: int| 0 <= i < names.len() && registered.contains(#[trigger] names[i]) {
            let i = choose|i: int| 0 <= i < names.len() && registered.contains(#[trigger] names[i]);
            if i < front.len() {
                assert(front[i] == names[i]);
            }
        }
    }
}

/// A start is refused just where strategies were asked for that are not also switched off, none of them
/// exists, and nobody said that this is meant.
pub proof fn law_a_start_without_what_was_asked_for_is_refused(
    requested: Seq<Seq<char>>,
    disabled: Seq<Seq<char>>,
    registered: Seq<Seq<char>>,
    allow_zero: bool,
)
    ensures
        startup::refuses_start(startup::asked_for(requested, disabled), registered, allow_zero)
            <==> {
            &&& !allow_zero
            &&& exists|i: int|
                0 <= i < requested.len() && !disabled.contains(#[trigger] requested[i])
            &&& forall|i: int|
                0 <= i < requested.len() && !disabled.contains(#[trigger] requested[i])
                    ==> !registered.contains(requested[i])
        },
{
    let asked = startup::asked_for(requested, disabled);
    lemma_resolved(asked, registered);
    if asked.len() > 0 {
        assert(asked.contains(asked[0]));
        lemma_asked_for(requested, disabled, asked[0]);
        let i = choose|i: int| 0 <= i < requested.len() && requested[i] == asked[0];
        assert(!disabled.contains(requested[i]));
    }
    if exists|i: int| 0 <= i < requested.len() && !disabled.contains(#[trigger] requested[i]) {
        let i = choose|i: int|
            0 <= i < requested.len() && !disabled.contains(#[trigger] requested[i]);
        assert(requested.contains(requested[i]));
        lemma_asked_for(requested, disabled, requested[i]);
        assert(asked.contains(requested[i]));
        assert(asked.len() > 0);
    }
    if startup::resolved_count(asked, registered) == 0 {
        assert forall|i: int|
            0 <= i < requested.len() && !disabled.contains(
                #[trigger] requested[i],
            ) implies !registered.contains(requested[i]) by {
            assert(requested.contains(requested[i]));
            lemma_asked_for(requested, disabled, requested[i]);
            let k = choose|k: int| 0 <= k < asked.len() && asked[k] == requested[i];
            assert(!registered.contains(asked[k]));
        }
    } else {
        let k = choose|k: int| 0 <= k < asked.len() && registered.contains(#[trigger] asked[k]);
        assert(asked.contains(asked[k]));
        lemma_asked_for(requested, disabled, asked[k]);
        let i = choose|i: int| 0 <= i < requested.len() && requested[i] == asked[k];
        assert(!disabled.contains(requested[i]));
    }
}

// ---------------------------------------------------------------------------------------------
// The panel

/// The latest trades that are shown are the last ones: as many as were asked for, or all where there are
/// fewer or no number was asked for.
pub proof fn law_the_latest_trades_are_the_last_ones(len: nat, limit: usize)
    ensures
        0 <= views::recent_from(len, limit) <= len,
        limit > 0 ==> len - views::recent_from(len, limit) == if len < limit {
            len as int
        } else {
            limit as int
        },
        limit == 0 ==> views::recent_from(len, limit) == 0,
{
}

/// What is shown of a strategy is its own: how many positions it holds and what they cost, its caps, and
/// what it did so far.
pub proof fn law_a_strategy_is_shown_as_it_stands(
    m: CoreModel,
    name: Seq<char>,
    enabled: Seq<Seq<char>>,
    asked: Option<StrategyInfoModel>,
    positions: Seq<OpenPosition>,
)
    requires
        decimal::total_plain(limits::costs(limits::held_by(positions, name))),
        positions.len() <= usize::MAX,
    ensures
        ({
            let r = views::strategy_row(m, name, enabled, asked, positions);
            let a = service::accounting_of(m, name);
            &&& r.name == name
            &&& r.enabled == enabled.contains(name)
            &&& r.open_positions == limits::count_by(positions, name)
            &&& r.open_notional_usd@ == limits::invested_by(positions, name)
            &&& m.config.strategy_limits.dom().contains(name) ==> r.max_open_positions
                == m.config.strategy_limits[name].max_open_positions && r.max_open_notional_usd
                == m.config.strategy_limits[name].max_open_notional_usd
            &&& !m.config.strategy_limits.dom().contains(name) ==> r.max_open_positions is None
                && r.max_open_notional_usd is None
            &&& r.orders_placed == a.placed
            &&& r.orders_rejected == a.rejected
            &&& r.limit_rejected == a.limit_rejected
            &&& r.closed_trades == a.closed_trades
            &&& r.wins == a.wins
            &&& r.losses == a.losses
            &&& r.fees_usd == a.fees_usd
            &&& r.net_pnl_usd == a.net_pnl_usd
            &&& asked matches Some(i) ==> r.source == i.source && r.sizing == i.sizing
                && r.entry_budget_usd == i.entry_budget_usd && r.exempt_gates == i.exempt_gates
                && r.timing_floor_sec == i.timing_floor_sec && r.blocked_timing
                == i.blocked_timing && r.blocked_momentum == i.blocked_momentum
                && r.exempted_timing == i.exempted_timing && r.exempted_momentum
                == i.exempted_momentum
            &&& asked is None ==> r.entry_budget_usd == m.config.size_usd && r.sizing.size_usd
                == m.config.size_usd && r.sizing.min_shares == m.config.min_shares
                && r.sizing.max_shares == m.config.max_shares && r.sizing.size_pct
                == m.config.size_pct
        }),
{
    lemma_strategy_sums(positions, name);
    decimal::lemma_total_plain(limits::costs(limits::held_by(positions, name)));
}

proof fn lemma_strategy_sums(positions: Seq<OpenPosition>, name: Seq<char>)
    ensures
        decimal::value_total(limits::costs(limits::held_by(positions, name)))
            == limits::invested_by(positions, name),
        limits::held_by(positions, name).len() == limits::count_by(positions, name),
        limits::count_by(positions, name) <= positions.len(),
    decreases positions.len(),
{
    if positions.len() > 0 {
        lemma_strategy_sums(positions.drop_last(), name);
        let rest = limits::held_by(positions.drop_last(), name);
        assert(limits::costs(rest.push(positions.last())).drop_last() =~= limits::costs(rest));
    }
}

/// The strategies that are shown as held up are those whose entries a gate stopped, and no others.
pub proof fn law_a_strategy_that_was_held_up_is_shown(
    names: Seq<Seq<char>>,
    infos: Seq<StrategyInfoModel>,
    i: int,
)
    requires
        infos.len() >= names.len(),
        0 <= i < names.len(),
    ensures
        infos[i].blocked_timing > 0 || infos[i].blocked_momentum > 0 ==> views::blocked_rows(
            names,
            infos,
        ).contains((names[i], infos[i].blocked_timing, infos[i].blocked_momentum)),
        forall|k: int|
            0 <= k < views::blocked_rows(names, infos).len() ==> (#[trigger] views::blocked_rows(
                names,
                infos,
            )[k]).1 > 0 || views::blocked_rows(names, infos)[k].2 > 0,
    decreases names.len(),
{
    let front = names.drop_last();
    lemma_blocked(names, infos);
    let rest = views::blocked_rows(front, infos);
    let all = views::blocked_rows(names, infos);
    let row = (names[i], infos[i].blocked_timing, infos[i].blocked_momentum);
    if i < front.len() {
        law_a_strategy_that_was_held_up_is_shown(front, infos, i);
        assert(front[i] == names[i]);
        if rest.contains(row) {
            let k = choose|k: int| 0 <= k < rest.len() && rest[k] == row;
            assert(all[k] == row);
        }
    } else if infos[i].blocked_timing > 0 || infos[i].blocked_momentum > 0 {
        assert(all[all.len() - 1] == row);
    }
}

proof fn lemma_blocked(names: Seq<Seq<char>>, infos: Seq<StrategyInfoModel>)
    requires
        infos.len() >= names.len(),
    ensures
        forall|k: int|
            0 <= k < views::blocked_rows(names, infos).len() ==> (#[trigger] views::blocked_rows(
                names,
                infos,
            )[k]).1 > 0 || views::blocked_rows(names, infos)[k].2 > 0,
    decreases names.len(),
{
    if names.len() > 0 {
        lemma_blocked(names.drop_last(), infos);
        let rest = views::blocked_rows(names.drop_last(), infos);
        let all = views::blocked_rows(names, infos);
        assert forall|k: int| 0 <= k < all.len() implies (#[trigger] all[k]).1 > 0 || all[k].2
            > 0 by {
            if k < rest.len() {
                assert(all[k] == rest[k]);
            }
        }
    }
}

/// A book is shown as it is: its first levels, in their order and with their sizes, and its measures. A
/// bid that is not above zero and an ask of one or more are no prices. A token without a book, or with
/// both sides empty, shows nothing.
pub proof fn law_a_book_is_shown_as_it_is(
    v: BookSideView,
    m: CoreModel,
    token: Seq<char>,
    metrics: BookMetrics,
    max_levels: usize,
)
    requires
        views::shows_book(v, m, token, metrics, max_levels),
    ensures
        !m.books.dom().contains(token) || (m.books[token].bids.len() == 0
            && m.books[token].asks.len() == 0) ==> v.bids@.len() == 0 && v.asks@.len() == 0
            && v.best_bid is None && v.best_ask is None && v.mid_price is None && v.obi is None
            && v.spread is None && v.spread_pct is None,
        m.books.dom().contains(token) && (m.books[token].bids.len() > 0
            || m.books[token].asks.len() > 0) ==> {
            let b = m.books[token];
            &&& v.bids@.len() == if b.bids.len() < max_levels {
                b.bids.len() as int
            } else {
                max_levels as int
            }
            &&& v.asks@.len() == if b.asks.len() < max_levels {
                b.asks.len() as int
            } else {
                max_levels as int
            }
            &&& forall|i: int|
                0 <= i < v.bids@.len() ==> (#[trigger] v.bids@[i]).price == b.bids[i].0
                    && v.bids@[i].size == b.bids[i].1
            &&& forall|i: int|
                0 <= i < v.asks@.len() ==> (#[trigger] v.asks@[i]).price == b.asks[i].0
                    && v.asks@[i].size == b.asks[i].1
            &&& metrics.best_bid@ > 0 ==> v.best_bid == Some(metrics.best_bid)
            &&& metrics.best_bid@ <= 0 ==> v.best_bid is None
            &&& metrics.best_ask@ < decimal::one_unit() ==> v.best_ask == Some(metrics.best_ask)
            &&& metrics.best_ask@ >= decimal::one_unit() ==> v.best_ask is None
            &&& metrics.mid_price@ > 0 ==> v.mid_price == Some(metrics.mid_price)
            &&& metrics.mid_price@ <= 0 ==> v.mid_price is None
            &&& v.obi == Some(metrics.obi)
            &&& v.spread == Some(metrics.spread)
            &&& v.spread_pct == Some(metrics.spread_pct)
        },
{
    decimal::lemma_parts_of((1, 0));
    reveal_with_fuel(decimal::pow10, 30);
}

/// A token's price is the middle of its book where there is one, and the market's own else.
pub proof fn law_a_price_is_the_middle_of_its_book(mid: Option<Decimal>, market: Decimal)
    ensures
        mid is Some && mid->0@ > 0 ==> views::live_price(mid, market) == mid->0,
        !(mid is Some && mid->0@ > 0) ==> views::live_price(mid, market) == market,
{
}

/// A span is shown in whole seconds: never longer than it is, by less than a second shorter, and below
/// zero where it is over.
pub proof fn law_a_span_is_shown_in_whole_seconds(ms: int)
    ensures
        ms >= 0 ==> 1000 * views::whole_seconds(ms) <= ms < 1000 * views::whole_seconds(ms) + 1000,
        ms < 0 ==> 1000 * views::whole_seconds(ms) - 1000 < ms <= 1000 * views::whole_seconds(ms),
{
}

/// A position is shown as it is, with the time that its round has left.
pub proof fn law_a_position_is_shown_as_it_is(p: OpenPosition, g: PositionGains, now_ms: i64)
    requires
        i64::MIN <= p.expires_at_ms - now_ms <= i64::MAX,
    ensures
        ({
            let r = views::position_row(p, g, now_ms);
            let left = p.expires_at_ms - now_ms;
            &&& r.id == p.id@
            &&& r.asset == p.asset@
            &&& exits::direction_named(r.direction) == p.direction
            &&& r.strategy == p.strategy@
            &&& r.token_id == p.token_id@
            &&& r.entry_price == p.entry_price
            &&& r.current_price == p.current_price
            &&& r.shares == p.shares
            &&& r.unrealized_pct == g.unrealized_pct
            &&& r.high_pnl_pct == g.high_pnl_pct
            &&& r.was_maker_entry == p.was_maker_entry
            &&& r.entered_at_ms == p.entered_at_ms
            &&& r.expires_at_ms == p.expires_at_ms
            &&& left >= 0 ==> 1000 * r.remaining_sec <= left < 1000 * r.remaining_sec + 1000
            &&& r.entry_cost_usd == p.flows.entry_cost_usd
            &&& r.cost_usd == p.cost_usd
            &&& r.entry_fee_usd == p.flows.entry_fee_usd
            &&& r.proceeds_usd == p.flows.proceeds_usd
            &&& r.exit_fee_usd == p.flows.exit_fee_usd
        }),
{
    exits::law_directions_are_read_back(p.direction);
    law_a_span_is_shown_in_whole_seconds(p.expires_at_ms - now_ms);
}

/// What is shown of settlements adds up: every claim is shown once with what it owes, is either retried
/// or left to the operator, and all of them together are what is shown as owed.
pub proof fn law_the_settlements_shown_add_up(v: SettlementView, m: CoreModel, as_of_ms: i64)
    requires
        views::shows_settlement(v, m, as_of_ms),
        m.settlement.claims.dom().finite(),
        crate::cash_laws::plain_claims(str_map::ordered(m.settlement.claims)),
    ensures
        v.receivable_usd@ == settlement::owed(m.settlement),
        v.claims@.len() == m.settlement.claims.len(),
        v.pending_redemptions == m.settlement.claims.len(),
        v.retryable_redemptions + v.manual_redemptions == v.pending_redemptions,
        v.settled_positions == m.settlement.applied.len(),
        v.redeemed_claims == m.settlement.redeemed.len(),
        v.watched_markets == m.settlement.queries.len(),
        forall|i: int|
            0 <= i < v.claims@.len() ==> {
                let c = str_map::ordered(m.settlement.claims)[i].1;
                &&& (#[trigger] v.claims@[i]).id@ == c.id
                &&& v.claims@[i].condition_id@ == c.condition_id
                &&& v.claims@[i].payout_usd == c.payout_usd
                &&& v.claims@[i].shares@ == c.outcome_shares
                &&& v.claims@[i].attempts == c.attempts
                &&& v.claims@[i].next_attempt_ms == c.next_attempt_ms
                &&& v.claims@[i].manual == c.manual
                &&& model::opt_text(v.claims@[i].last_error) == c.last_error
            },
{
    str_map::lemma_has_order(m.settlement.claims);
    str_map::lemma_entries_map(str_map::ordered(m.settlement.claims));
    crate::payout_laws::law_a_claim_is_retried_or_left_to_the_operator(m.settlement);
    crate::cash_laws::law_what_is_owed_is_the_sum_of_the_claims(m.settlement);
}

/// The kernel is shown as it is: its counts, its last error, whether and why it is frozen, how its books
/// stand, and that the age of a book is checked where it is bounded.
pub proof fn law_the_kernel_is_shown_as_it_is(
    v: EngineStats,
    m: CoreModel,
    input: StatsInput,
    as_of_ms: i64,
)
    requires
        views::shows_stats(v, m, input, as_of_ms),
    ensures
        v.stats == m.stats,
        v.last_error is Some <==> m.last_error is Some,
        m.last_error matches Some(e) ==> (v.last_error matches Some(x) && x@ == e) && (
        v.last_error_text matches Some(t) && t@ == e.code.spec_name() + ": "@ + e.message),
        v.sweep_failures == m.consecutive_sweep_failures,
        v.frozen_reason is Some <==> m.kill_reason is Some,
        model::opt_text(v.frozen_reason) == m.kill_reason,
        v.audit is Some <==> m.audit.report is Some,
        v.audit matches Some(a) ==> a.halted == m.audit.halted && a.halt_reason@
            == m.audit.halt_reason && a.runs == m.audit.runs && a.failures == m.audit.failures
            && a.anchored == (m.audit.anchor is Some) && a.ok == m.audit.report->0.ok
            && a.drift_usd == m.audit.report->0.drift_usd && a.note@ == m.audit.report->0.note
            && a.structural_failure == m.audit.report->0.structural_failure && a.summary@
            == m.audit.report->0.summary,
        input.engine_stale_ms matches Some(ms) ==> v.max_stale_ms == ms,
        input.engine_stale_ms is None ==> v.max_stale_ms == m.config.max_orderbook_stale_ms,
        v.staleness_checked <==> v.max_stale_ms > 0,
        v.sizing.equity_usd == input.equity,
{
}

} // verus!
