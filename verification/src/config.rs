//! The kernel's settings.
use vstd::prelude::*;
use vstd::string::*;

use crate::decimal::Decimal;
use crate::model;
use crate::model::Mode;
use crate::str_map;
use crate::str_map::StrMap;

verus! {

/// The limits of the risk gate that the kernel reads.
#[derive(Clone, Copy, Debug)]
pub struct RiskConfig {
    /// The largest notional of one order.
    pub max_order_notional: Decimal,
    /// The largest notional of one order, in percent of the equity; 0 switches it off.
    pub max_order_notional_pct: Decimal,
    /// The largest notional held open over all strategies; 0 switches it off.
    pub max_open_notional_usd: Decimal,
    /// The highest price an order may state.
    pub max_price: Decimal,
}

/// The settings of the position book that the kernel reads.
#[derive(Clone, Copy, Debug)]
pub struct PositionConfig {
    /// The day's loss cap, in percent of the day's opening equity.
    pub max_daily_loss_equity_pct: Decimal,
    /// How long before a round's end entries stop.
    pub exit_min_time_left_sec: i64,
}

/// The caps and sizes of one strategy; what is absent is inherited.
#[derive(Debug)]
pub struct StrategyLimit {
    /// The most positions that the strategy may hold.
    pub max_open_positions: Option<usize>,
    /// The most notional that the strategy may hold.
    pub max_open_notional_usd: Option<Decimal>,
    pub size_usd: Option<Decimal>,
    pub min_shares: Option<Decimal>,
    pub max_shares: Option<Decimal>,
    pub size_weight: Option<Decimal>,
    pub size_pct: Option<Decimal>,
}

/// What a strategy limit says.
pub struct StrategyLimitModel {
    pub max_open_positions: Option<usize>,
    pub max_open_notional_usd: Option<Decimal>,
    pub size_usd: Option<Decimal>,
    pub min_shares: Option<Decimal>,
    pub max_shares: Option<Decimal>,
    pub size_weight: Option<Decimal>,
    pub size_pct: Option<Decimal>,
}

impl View for StrategyLimit {
    type V = StrategyLimitModel;

    open spec fn view(&self) -> StrategyLimitModel {
        StrategyLimitModel {
            max_open_positions: self.max_open_positions,
            max_open_notional_usd: self.max_open_notional_usd,
            size_usd: self.size_usd,
            min_shares: self.min_shares,
            max_shares: self.max_shares,
            size_weight: self.size_weight,
            size_pct: self.size_pct,
        }
    }
}

impl Clone for StrategyLimit {
    fn clone(&self) -> (r: Self)
        ensures
            r@ == self@,
    {
        StrategyLimit {
            max_open_positions: self.max_open_positions,
            max_open_notional_usd: self.max_open_notional_usd,
            size_usd: self.size_usd,
            min_shares: self.min_shares,
            max_shares: self.max_shares,
            size_weight: self.size_weight,
            size_pct: self.size_pct,
        }
    }
}

/// What is changed of the shadow evolution settings; what is absent keeps its default.
#[derive(Debug)]
pub struct ShadowEvolutionTuning {
    pub min_sample_count: Option<u32>,
    pub min_win_rate_improvement: Option<Decimal>,
    pub min_profit_factor_improvement: Option<Decimal>,
    pub min_observation_secs: Option<i64>,
    pub cooldown_secs: Option<i64>,
    pub variant_count: Option<usize>,
    /// The window of the metrics.
    pub evaluation_window_secs: Option<i64>,
    /// The largest step of one evolution; it may be tightened, never widened.
    pub max_gradient: Option<Decimal>,
    pub audit_dir: Option<String>,
    pub auto_evolve: Option<bool>,
    pub evolution_cycle_secs: Option<i64>,
    pub proposal_ttl_secs: Option<i64>,
    /// How many knobs a deep variant moves at once.
    pub deep_dims: Option<usize>,
}

/// What the tuning says.
pub struct ShadowEvolutionTuningModel {
    pub min_sample_count: Option<u32>,
    pub min_win_rate_improvement: Option<Decimal>,
    pub min_profit_factor_improvement: Option<Decimal>,
    pub min_observation_secs: Option<i64>,
    pub cooldown_secs: Option<i64>,
    pub variant_count: Option<usize>,
    pub evaluation_window_secs: Option<i64>,
    pub max_gradient: Option<Decimal>,
    pub audit_dir: Option<Seq<char>>,
    pub auto_evolve: Option<bool>,
    pub evolution_cycle_secs: Option<i64>,
    pub proposal_ttl_secs: Option<i64>,
    pub deep_dims: Option<usize>,
}

impl View for ShadowEvolutionTuning {
    type V = ShadowEvolutionTuningModel;

    open spec fn view(&self) -> ShadowEvolutionTuningModel {
        ShadowEvolutionTuningModel {
            min_sample_count: self.min_sample_count,
            min_win_rate_improvement: self.min_win_rate_improvement,
            min_profit_factor_improvement: self.min_profit_factor_improvement,
            min_observation_secs: self.min_observation_secs,
            cooldown_secs: self.cooldown_secs,
            variant_count: self.variant_count,
            evaluation_window_secs: self.evaluation_window_secs,
            max_gradient: self.max_gradient,
            audit_dir: model::opt_text(self.audit_dir),
            auto_evolve: self.auto_evolve,
            evolution_cycle_secs: self.evolution_cycle_secs,
            proposal_ttl_secs: self.proposal_ttl_secs,
            deep_dims: self.deep_dims,
        }
    }
}

impl Clone for ShadowEvolutionTuning {
    fn clone(&self) -> (r: Self)
        ensures
            r@ == self@,
    {
        ShadowEvolutionTuning {
            min_sample_count: self.min_sample_count,
            min_win_rate_improvement: self.min_win_rate_improvement,
            min_profit_factor_improvement: self.min_profit_factor_improvement,
            min_observation_secs: self.min_observation_secs,
            cooldown_secs: self.cooldown_secs,
            variant_count: self.variant_count,
            evaluation_window_secs: self.evaluation_window_secs,
            max_gradient: self.max_gradient,
            audit_dir: self.audit_dir.clone(),
            auto_evolve: self.auto_evolve,
            evolution_cycle_secs: self.evolution_cycle_secs,
            proposal_ttl_secs: self.proposal_ttl_secs,
            deep_dims: self.deep_dims,
        }
    }
}

/// The settings of the shadow evolution.
#[derive(Debug)]
pub struct ShadowSettings {
    pub enabled: bool,
    pub min_sample_count: u32,
    pub min_win_rate_improvement: Decimal,
    pub min_profit_factor_improvement: Decimal,
    pub min_observation_secs: i64,
    pub cooldown_secs: i64,
    pub variant_count: usize,
    pub evaluation_window_secs: i64,
    pub max_gradient: Decimal,
    pub audit_dir: String,
    pub auto_evolve: bool,
    pub evolution_cycle_secs: i64,
    pub proposal_ttl_secs: i64,
    pub deep_dims: usize,
}

/// What the shadow evolution settings say.
pub struct ShadowSettingsModel {
    pub enabled: bool,
    pub min_sample_count: u32,
    pub min_win_rate_improvement: Decimal,
    pub min_profit_factor_improvement: Decimal,
    pub min_observation_secs: i64,
    pub cooldown_secs: i64,
    pub variant_count: usize,
    pub evaluation_window_secs: i64,
    pub max_gradient: Decimal,
    pub audit_dir: Seq<char>,
    pub auto_evolve: bool,
    pub evolution_cycle_secs: i64,
    pub proposal_ttl_secs: i64,
    pub deep_dims: usize,
}

impl View for ShadowSettings {
    type V = ShadowSettingsModel;

    open spec fn view(&self) -> ShadowSettingsModel {
        ShadowSettingsModel {
            enabled: self.enabled,
            min_sample_count: self.min_sample_count,
            min_win_rate_improvement: self.min_win_rate_improvement,
            min_profit_factor_improvement: self.min_profit_factor_improvement,
            min_observation_secs: self.min_observation_secs,
            cooldown_secs: self.cooldown_secs,
            variant_count: self.variant_count,
            evaluation_window_secs: self.evaluation_window_secs,
            max_gradient: self.max_gradient,
            audit_dir: self.audit_dir@,
            auto_evolve: self.auto_evolve,
            evolution_cycle_secs: self.evolution_cycle_secs,
            proposal_ttl_secs: self.proposal_ttl_secs,
            deep_dims: self.deep_dims,
        }
    }
}

impl Clone for ShadowSettings {
    fn clone(&self) -> (r: Self)
        ensures
            r@ == self@,
    {
        ShadowSettings {
            enabled: self.enabled,
            min_sample_count: self.min_sample_count,
            min_win_rate_improvement: self.min_win_rate_improvement,
            min_profit_factor_improvement: self.min_profit_factor_improvement,
            min_observation_secs: self.min_observation_secs,
            cooldown_secs: self.cooldown_secs,
            variant_count: self.variant_count,
            evaluation_window_secs: self.evaluation_window_secs,
            max_gradient: self.max_gradient,
            audit_dir: self.audit_dir.clone(),
            auto_evolve: self.auto_evolve,
            evolution_cycle_secs: self.evolution_cycle_secs,
            proposal_ttl_secs: self.proposal_ttl_secs,
            deep_dims: self.deep_dims,
        }
    }
}

/// The kernel's settings.
#[derive(Debug)]
pub struct CoreConfig {
    pub mode: Mode,
    pub default_maker_timeout_ms: i64,
    /// How many ticks below the bid a taker exit states its limit.
    pub exit_taker_slip_ticks: i64,
    pub risk: RiskConfig,
    pub dry_seed_balance: Decimal,
    pub markets: Vec<String>,
    pub positions: PositionConfig,
    pub max_consecutive_losses: u32,
    pub breaker_cooldown_sec: i64,
    pub round_duration_sec: i64,
    pub auto_exits_enabled: bool,
    pub engine_enabled: bool,
    pub assets: Vec<String>,
    pub enabled_strategies: Vec<String>,
    pub disabled_strategies: Vec<String>,
    pub strategy_dir: Option<String>,
    pub strategy_state_path: Option<String>,
    pub requested_strategies: Vec<String>,
    pub allow_zero_strategies: bool,
    pub min_round_age_sec: i64,
    pub size_usd: Decimal,
    pub min_shares: Decimal,
    pub max_shares: Decimal,
    pub size_pct: Decimal,
    pub trend_confirm_sec: i64,
    pub trend_window_floor_ms: i64,
    pub spread_arb_trend_entry_factor: Option<Decimal>,
    pub spread_arb_entry_min_obi: Option<Decimal>,
    pub spread_arb_entry_max_spread_pct: Option<Decimal>,
    pub spread_arb_entry_dip_max_pct: Option<Decimal>,
    pub spread_arb_entry_bounce_min_pct: Option<Decimal>,
    pub spread_arb_entry_bounce_window_sec: Option<i64>,
    pub feed_ws_enabled: bool,
    pub market_plugin: Option<String>,
    pub binance_assets: Vec<String>,
    pub near_miss_path: Option<String>,
    pub trade_log_path: Option<String>,
    pub order_log_path: Option<String>,
    pub position_log_path: Option<String>,
    pub discovery_enabled: bool,
    pub shadow_evolution_enabled: bool,
    pub shadow_evolution_tuning: Option<ShadowEvolutionTuning>,
    pub strategy_limits: StrMap<StrategyLimit>,
    pub entry_maker_timeout_ms: i64,
    pub event_archive_path: Option<String>,
    pub event_archive_max_mb: u64,
    pub event_archive_rotate_mb: u64,
    pub event_archive_min_free_mb: u64,
    pub max_orderbook_stale_ms: i64,
    pub audit_interval_sec: i64,
    pub audit_log_path: Option<String>,
    pub applied_log_path: Option<String>,
    pub audit_halt_entries: bool,
    pub settlement_log_path: Option<String>,
    pub dry_redeem_fail: u32,
    pub dry_redeem_manual: bool,
    /// Whether this is a replay, which alone may charge another fee schedule than the shipped one.
    pub fee_schedule_replay: bool,
}

/// What the settings say.
pub struct CoreConfigModel {
    pub mode: Mode,
    pub default_maker_timeout_ms: i64,
    pub exit_taker_slip_ticks: i64,
    pub risk: RiskConfig,
    pub dry_seed_balance: Decimal,
    pub markets: Seq<Seq<char>>,
    pub positions: PositionConfig,
    pub max_consecutive_losses: u32,
    pub breaker_cooldown_sec: i64,
    pub round_duration_sec: i64,
    pub auto_exits_enabled: bool,
    pub engine_enabled: bool,
    pub assets: Seq<Seq<char>>,
    pub enabled_strategies: Seq<Seq<char>>,
    pub disabled_strategies: Seq<Seq<char>>,
    pub strategy_dir: Option<Seq<char>>,
    pub strategy_state_path: Option<Seq<char>>,
    pub requested_strategies: Seq<Seq<char>>,
    pub allow_zero_strategies: bool,
    pub min_round_age_sec: i64,
    pub size_usd: Decimal,
    pub min_shares: Decimal,
    pub max_shares: Decimal,
    pub size_pct: Decimal,
    pub trend_confirm_sec: i64,
    pub trend_window_floor_ms: i64,
    pub spread_arb_trend_entry_factor: Option<Decimal>,
    pub spread_arb_entry_min_obi: Option<Decimal>,
    pub spread_arb_entry_max_spread_pct: Option<Decimal>,
    pub spread_arb_entry_dip_max_pct: Option<Decimal>,
    pub spread_arb_entry_bounce_min_pct: Option<Decimal>,
    pub spread_arb_entry_bounce_window_sec: Option<i64>,
    pub feed_ws_enabled: bool,
    pub market_plugin: Option<Seq<char>>,
    pub binance_assets: Seq<Seq<char>>,
    pub near_miss_path: Option<Seq<char>>,
    pub trade_log_path: Option<Seq<char>>,
    pub order_log_path: Option<Seq<char>>,
    pub position_log_path: Option<Seq<char>>,
    pub discovery_enabled: bool,
    pub shadow_evolution_enabled: bool,
    pub shadow_evolution_tuning: Option<ShadowEvolutionTuningModel>,
    pub strategy_limits: Map<Seq<char>, StrategyLimitModel>,
    pub entry_maker_timeout_ms: i64,
    pub event_archive_path: Option<Seq<char>>,
    pub event_archive_max_mb: u64,
    pub event_archive_rotate_mb: u64,
    pub event_archive_min_free_mb: u64,
    pub max_orderbook_stale_ms: i64,
    pub audit_interval_sec: i64,
    pub audit_log_path: Option<Seq<char>>,
    pub applied_log_path: Option<Seq<char>>,
    pub audit_halt_entries: bool,
    pub settlement_log_path: Option<Seq<char>>,
    pub dry_redeem_fail: u32,
    pub dry_redeem_manual: bool,
    pub fee_schedule_replay: bool,
}

impl View for CoreConfig {
    type V = CoreConfigModel;

    open spec fn view(&self) -> CoreConfigModel {
        CoreConfigModel {
            mode: self.mode,
            default_maker_timeout_ms: self.default_maker_timeout_ms,
            exit_taker_slip_ticks: self.exit_taker_slip_ticks,
            risk: self.risk,
            dry_seed_balance: self.dry_seed_balance,
            markets: model::texts(self.markets@),
            positions: self.positions,
            max_consecutive_losses: self.max_consecutive_losses,
            breaker_cooldown_sec: self.breaker_cooldown_sec,
            round_duration_sec: self.round_duration_sec,
            auto_exits_enabled: self.auto_exits_enabled,
            engine_enabled: self.engine_enabled,
            assets: model::texts(self.assets@),
            enabled_strategies: model::texts(self.enabled_strategies@),
            disabled_strategies: model::texts(self.disabled_strategies@),
            strategy_dir: model::opt_text(self.strategy_dir),
            strategy_state_path: model::opt_text(self.strategy_state_path),
            requested_strategies: model::texts(self.requested_strategies@),
            allow_zero_strategies: self.allow_zero_strategies,
            min_round_age_sec: self.min_round_age_sec,
            size_usd: self.size_usd,
            min_shares: self.min_shares,
            max_shares: self.max_shares,
            size_pct: self.size_pct,
            trend_confirm_sec: self.trend_confirm_sec,
            trend_window_floor_ms: self.trend_window_floor_ms,
            spread_arb_trend_entry_factor: self.spread_arb_trend_entry_factor,
            spread_arb_entry_min_obi: self.spread_arb_entry_min_obi,
            spread_arb_entry_max_spread_pct: self.spread_arb_entry_max_spread_pct,
            spread_arb_entry_dip_max_pct: self.spread_arb_entry_dip_max_pct,
            spread_arb_entry_bounce_min_pct: self.spread_arb_entry_bounce_min_pct,
            spread_arb_entry_bounce_window_sec: self.spread_arb_entry_bounce_window_sec,
            feed_ws_enabled: self.feed_ws_enabled,
            market_plugin: model::opt_text(self.market_plugin),
            binance_assets: model::texts(self.binance_assets@),
            near_miss_path: model::opt_text(self.near_miss_path),
            trade_log_path: model::opt_text(self.trade_log_path),
            order_log_path: model::opt_text(self.order_log_path),
            position_log_path: model::opt_text(self.position_log_path),
            discovery_enabled: self.discovery_enabled,
            shadow_evolution_enabled: self.shadow_evolution_enabled,
            shadow_evolution_tuning: match self.shadow_evolution_tuning {
                Some(t) => Some(t@),
                None => None,
            },
            strategy_limits: self.strategy_limits@,
            entry_maker_timeout_ms: self.entry_maker_timeout_ms,
            event_archive_path: model::opt_text(self.event_archive_path),
            event_archive_max_mb: self.event_archive_max_mb,
            event_archive_rotate_mb: self.event_archive_rotate_mb,
            event_archive_min_free_mb: self.event_archive_min_free_mb,
            max_orderbook_stale_ms: self.max_orderbook_stale_ms,
            audit_interval_sec: self.audit_interval_sec,
            audit_log_path: model::opt_text(self.audit_log_path),
            applied_log_path: model::opt_text(self.applied_log_path),
            audit_halt_entries: self.audit_halt_entries,
            settlement_log_path: model::opt_text(self.settlement_log_path),
            dry_redeem_fail: self.dry_redeem_fail,
            dry_redeem_manual: self.dry_redeem_manual,
            fee_schedule_replay: self.fee_schedule_replay,
        }
    }
}

/// What of an optional value stands, over a default.
pub open spec fn or_default<T>(value: Option<T>, default: T) -> T {
    match value {
        Some(v) => v,
        None => default,
    }
}

/// Takes an optional value over a default.
pub fn value_or<T: Copy>(value: Option<T>, default: T) -> (r: T)
    ensures
        r == or_default(value, default),
{
    match value {
        Some(v) => v,
        None => default,
    }
}

/// The shadow evolution settings: the defaults, with what the tuning changes. The step ceiling is
/// never widened, and a deep variant moves at least one knob.
pub open spec fn tuned(
    defaults: ShadowSettingsModel,
    enabled: bool,
    tuning: Option<ShadowEvolutionTuningModel>,
    ceiling: Decimal,
) -> ShadowSettingsModel {
    match tuning {
        None => ShadowSettingsModel { enabled, ..defaults },
        Some(t) => ShadowSettingsModel {
            enabled,
            min_sample_count: or_default(t.min_sample_count, defaults.min_sample_count),
            min_win_rate_improvement: or_default(
                t.min_win_rate_improvement,
                defaults.min_win_rate_improvement,
            ),
            min_profit_factor_improvement: or_default(
                t.min_profit_factor_improvement,
                defaults.min_profit_factor_improvement,
            ),
            min_observation_secs: or_default(t.min_observation_secs, defaults.min_observation_secs),
            cooldown_secs: or_default(t.cooldown_secs, defaults.cooldown_secs),
            variant_count: or_default(t.variant_count, defaults.variant_count),
            evaluation_window_secs: or_default(
                t.evaluation_window_secs,
                defaults.evaluation_window_secs,
            ),
            max_gradient: match t.max_gradient {
                Some(v) => v.spec_min(ceiling),
                None => defaults.max_gradient,
            },
            audit_dir: or_default(t.audit_dir, defaults.audit_dir),
            auto_evolve: or_default(t.auto_evolve, defaults.auto_evolve),
            evolution_cycle_secs: or_default(t.evolution_cycle_secs, defaults.evolution_cycle_secs),
            proposal_ttl_secs: or_default(t.proposal_ttl_secs, defaults.proposal_ttl_secs),
            deep_dims: match t.deep_dims {
                Some(v) => if v < 1 {
                    1
                } else {
                    v
                },
                None => defaults.deep_dims,
            },
        },
    }
}

/// Tuning can narrow the step of a hot change and never widens it past its ceiling, and a deep
/// round always varies something.
pub proof fn law_tuning_never_widens_the_step(
    defaults: ShadowSettingsModel,
    enabled: bool,
    tuning: Option<ShadowEvolutionTuningModel>,
    ceiling: Decimal,
)
    requires
        defaults.max_gradient@ <= ceiling@,
        defaults.deep_dims >= 1,
    ensures
        tuned(defaults, enabled, tuning, ceiling).max_gradient@ <= ceiling@,
        tuned(defaults, enabled, tuning, ceiling).deep_dims >= 1,
{
}

/// What a strategy's limit overrides of the sizing.
#[derive(Clone, Copy, Debug)]
pub struct StrategySize {
    pub size_usd: Option<Decimal>,
    pub min_shares: Option<Decimal>,
    pub max_shares: Option<Decimal>,
    pub size_weight: Option<Decimal>,
    pub size_pct: Option<Decimal>,
}

impl View for StrategySize {
    type V = StrategySize;

    open spec fn view(&self) -> StrategySize {
        *self
    }
}

/// What a strategy's limit overrides of the sizing.
pub open spec fn sizing_of(limit: StrategyLimitModel) -> StrategySize {
    StrategySize {
        size_usd: limit.size_usd,
        min_shares: limit.min_shares,
        max_shares: limit.max_shares,
        size_weight: limit.size_weight,
        size_pct: limit.size_pct,
    }
}

impl StrategyLimit {
    /// What the limit overrides of the sizing; nothing where it states caps alone.
    pub fn sizing(&self) -> (r: StrategySize)
        ensures
            r == sizing_of(self@),
    {
        StrategySize {
            size_usd: self.size_usd,
            min_shares: self.min_shares,
            max_shares: self.max_shares,
            size_weight: self.size_weight,
            size_pct: self.size_pct,
        }
    }
}

/// The entry knobs of the spread strategy that the settings may change.
#[derive(Clone, Copy, Debug)]
pub struct SpreadArbKnobs {
    pub trend_confirm_sec: i64,
    pub trend_entry_factor: Decimal,
    pub entry_min_obi: Decimal,
    pub entry_max_spread_pct: Decimal,
    pub entry_dip_max_pct: Decimal,
    pub entry_bounce_min_pct: Decimal,
    pub entry_bounce_window_sec: i64,
}

/// The settings of the engine that come from the kernel's.
#[derive(Debug)]
pub struct EngineConfig {
    pub assets: Vec<String>,
    pub round_duration_sec: i64,
    pub min_round_age_sec: i64,
    pub min_time_left_sec: i64,
    pub trend_confirm_sec: i64,
    pub trend_window_floor_ms: i64,
    pub spread_arb: SpreadArbKnobs,
    pub size_usd: Decimal,
    pub min_shares: Decimal,
    pub max_shares: Decimal,
    pub size_pct: Decimal,
    pub max_orderbook_stale_ms: i64,
    pub strategy_sizes: StrMap<StrategySize>,
}

/// The spread strategy's entry knobs: the shipped ones, with what the settings change.
pub open spec fn spread_knobs(m: CoreConfigModel, shipped: SpreadArbKnobs) -> SpreadArbKnobs {
    SpreadArbKnobs {
        trend_confirm_sec: m.trend_confirm_sec,
        trend_entry_factor: or_default(m.spread_arb_trend_entry_factor, shipped.trend_entry_factor),
        entry_min_obi: or_default(m.spread_arb_entry_min_obi, shipped.entry_min_obi),
        entry_max_spread_pct: or_default(
            m.spread_arb_entry_max_spread_pct,
            shipped.entry_max_spread_pct,
        ),
        entry_dip_max_pct: or_default(m.spread_arb_entry_dip_max_pct, shipped.entry_dip_max_pct),
        entry_bounce_min_pct: or_default(
            m.spread_arb_entry_bounce_min_pct,
            shipped.entry_bounce_min_pct,
        ),
        entry_bounce_window_sec: or_default(
            m.spread_arb_entry_bounce_window_sec,
            shipped.entry_bounce_window_sec,
        ),
    }
}

/// The sizing overrides of each strategy that has a limit.
pub open spec fn sizes_of(limits: Map<Seq<char>, StrategyLimitModel>) -> Map<Seq<char>, StrategySize> {
    Map::new(|k: Seq<char>| limits.dom().contains(k), |k: Seq<char>| sizing_of(limits[k]))
}

impl CoreConfig {
    /// The shadow evolution settings, over the defaults.
    pub fn shadow_settings(&self, defaults: ShadowSettings, ceiling: Decimal) -> (r: ShadowSettings)
        ensures
            r@ == tuned(
                defaults@,
                self.shadow_evolution_enabled,
                self@.shadow_evolution_tuning,
                ceiling,
            ),
    {
        let mut c = defaults;
        c.enabled = self.shadow_evolution_enabled;
        match &self.shadow_evolution_tuning {
            None => {},
            Some(t) => {
                c.min_sample_count = value_or(t.min_sample_count, c.min_sample_count);
                c.min_win_rate_improvement = value_or(
                    t.min_win_rate_improvement,
                    c.min_win_rate_improvement,
                );
                c.min_profit_factor_improvement = value_or(
                    t.min_profit_factor_improvement,
                    c.min_profit_factor_improvement,
                );
                c.min_observation_secs = value_or(t.min_observation_secs, c.min_observation_secs);
                c.cooldown_secs = value_or(t.cooldown_secs, c.cooldown_secs);
                c.variant_count = value_or(t.variant_count, c.variant_count);
                c.evaluation_window_secs = value_or(
                    t.evaluation_window_secs,
                    c.evaluation_window_secs,
                );
                match t.max_gradient {
                    Some(v) => {
                        c.max_gradient = v.min(ceiling);
                    },
                    None => {},
                }
                match &t.audit_dir {
                    Some(v) => {
                        c.audit_dir = v.clone();
                    },
                    None => {},
                }
                c.auto_evolve = value_or(t.auto_evolve, c.auto_evolve);
                c.evolution_cycle_secs = value_or(t.evolution_cycle_secs, c.evolution_cycle_secs);
                c.proposal_ttl_secs = value_or(t.proposal_ttl_secs, c.proposal_ttl_secs);
                match t.deep_dims {
                    Some(v) => {
                        c.deep_dims = if v < 1 {
                            1
                        } else {
                            v
                        };
                    },
                    None => {},
                }
            },
        }
        c
    }

    /// The engine's settings. A live run and a replay take them from here alike.
    pub fn engine_config(&self, shipped: SpreadArbKnobs) -> (r: EngineConfig)
        ensures
            model::texts(r.assets@) == self@.assets,
            r.round_duration_sec == self.round_duration_sec,
            r.min_round_age_sec == self.min_round_age_sec,
            r.min_time_left_sec == self.positions.exit_min_time_left_sec,
            r.trend_confirm_sec == self.trend_confirm_sec,
            r.trend_window_floor_ms == self.trend_window_floor_ms,
            r.spread_arb == spread_knobs(self@, shipped),
            r.size_usd == self.size_usd,
            r.min_shares == self.min_shares,
            r.max_shares == self.max_shares,
            r.size_pct == self.size_pct,
            r.max_orderbook_stale_ms == self.max_orderbook_stale_ms,
            r.strategy_sizes@ == sizes_of(self@.strategy_limits),
    {
        let ghost limits = self.strategy_limits@;
        let mut sizes: StrMap<StrategySize> = StrMap::new();
        let n: usize = self.strategy_limits.len();
        let mut i: usize = 0;
        proof {
            str_map::lemma_has_order(limits);
            str_map::lemma_entries_map(str_map::ordered(limits));
        }
        while i < n
            invariant
                i <= n,
                limits == self.strategy_limits@,
                n == str_map::ordered(limits).len(),
                str_map::keys_rise(str_map::ordered(limits)),
                forall|j: int|
                    0 <= j < n ==> limits.dom().contains(
                        (#[trigger] str_map::ordered(limits)[j]).0,
                    ) && limits[str_map::ordered(limits)[j].0] == str_map::ordered(limits)[j].1,
                forall|k: Seq<char>|
                    sizes@.dom().contains(k) <==> exists|j: int|
                        0 <= j < i && #[trigger] str_map::ordered(limits)[j].0 == k,
                forall|k: Seq<char>| #[trigger]
                    sizes@.dom().contains(k) ==> sizes@[k] == sizing_of(limits[k]),
            decreases n - i,
        {
            let name = self.strategy_limits.key_at(i).clone();
            let size = self.strategy_limits.value_at(i).sizing();
            let ghost before = sizes@;
            let ghost row = str_map::ordered(limits)[i as int];
            sizes.insert(name, size);
            proof {
                assert forall|k: Seq<char>|
                    sizes@.dom().contains(k) <==> exists|j: int|
                        0 <= j < i + 1 && #[trigger] str_map::ordered(limits)[j].0 == k by {
                    if k == row.0 {
                        assert(str_map::ordered(limits)[i as int].0 == k);
                    } else if sizes@.dom().contains(k) {
                        assert(before.dom().contains(k));
                        let j = choose|j: int|
                            0 <= j < i && #[trigger] str_map::ordered(limits)[j].0 == k;
                        assert(0 <= j < i + 1 && str_map::ordered(limits)[j].0 == k);
                    } else if exists|j: int|
                        0 <= j < i + 1 && #[trigger] str_map::ordered(limits)[j].0 == k {
                        let j = choose|j: int|
                            0 <= j < i + 1 && #[trigger] str_map::ordered(limits)[j].0 == k;
                        assert(0 <= j < i && str_map::ordered(limits)[j].0 == k);
                        assert(before.dom().contains(k));
                    }
                }
            }
            i = i + 1;
        }
        assert(sizes@ =~= sizes_of(limits));
        EngineConfig {
            assets: model::clone_texts(&self.assets),
            round_duration_sec: self.round_duration_sec,
            min_round_age_sec: self.min_round_age_sec,
            min_time_left_sec: self.positions.exit_min_time_left_sec,
            trend_confirm_sec: self.trend_confirm_sec,
            trend_window_floor_ms: self.trend_window_floor_ms,
            spread_arb: SpreadArbKnobs {
                trend_confirm_sec: self.trend_confirm_sec,
                trend_entry_factor: value_or(
                    self.spread_arb_trend_entry_factor,
                    shipped.trend_entry_factor,
                ),
                entry_min_obi: value_or(self.spread_arb_entry_min_obi, shipped.entry_min_obi),
                entry_max_spread_pct: value_or(
                    self.spread_arb_entry_max_spread_pct,
                    shipped.entry_max_spread_pct,
                ),
                entry_dip_max_pct: value_or(
                    self.spread_arb_entry_dip_max_pct,
                    shipped.entry_dip_max_pct,
                ),
                entry_bounce_min_pct: value_or(
                    self.spread_arb_entry_bounce_min_pct,
                    shipped.entry_bounce_min_pct,
                ),
                entry_bounce_window_sec: value_or(
                    self.spread_arb_entry_bounce_window_sec,
                    shipped.entry_bounce_window_sec,
                ),
            },
            size_usd: self.size_usd,
            min_shares: self.min_shares,
            max_shares: self.max_shares,
            size_pct: self.size_pct,
            max_orderbook_stale_ms: self.max_orderbook_stale_ms,
            strategy_sizes: sizes,
        }
    }
}

/// The assets that are traded unless the settings say otherwise.
pub open spec fn shipped_assets() -> Seq<Seq<char>> {
    seq!["BTC"@, "ETH"@, "SOL"@, "XRP"@]
}

fn assets_shipped() -> (r: Vec<String>)
    ensures
        model::texts(r@) == shipped_assets(),
{
    let mut out: Vec<String> = Vec::new();
    out.push("BTC".to_owned());
    out.push("ETH".to_owned());
    out.push("SOL".to_owned());
    out.push("XRP".to_owned());
    assert(model::texts(out@) =~= shipped_assets());
    out
}

/// The settings of a kernel that was told nothing, over the defaults of the risk gate, of the
/// position book and of the engine's freshness check.
pub open spec fn default_config(
    risk: RiskConfig,
    positions: PositionConfig,
    max_orderbook_stale_ms: i64,
) -> CoreConfigModel {
    CoreConfigModel {
        mode: Mode::Dry,
        default_maker_timeout_ms: 5000,
        exit_taker_slip_ticks: 2,
        risk: risk,
        dry_seed_balance: Decimal::of((10_000, 0)),
        markets: Seq::empty(),
        positions: positions,
        max_consecutive_losses: 3,
        breaker_cooldown_sec: 300,
        round_duration_sec: 900,
        auto_exits_enabled: true,
        engine_enabled: false,
        assets: shipped_assets(),
        enabled_strategies: Seq::empty(),
        disabled_strategies: Seq::empty(),
        strategy_dir: None,
        strategy_state_path: None,
        requested_strategies: Seq::empty(),
        allow_zero_strategies: false,
        min_round_age_sec: 30,
        size_usd: Decimal::of((25, 1)),
        min_shares: Decimal::of((10, 0)),
        max_shares: Decimal::of((10, 0)),
        size_pct: Decimal::spec_zero(),
        trend_confirm_sec: 60,
        trend_window_floor_ms: 10_000,
        spread_arb_trend_entry_factor: None,
        spread_arb_entry_min_obi: None,
        spread_arb_entry_max_spread_pct: None,
        spread_arb_entry_dip_max_pct: None,
        spread_arb_entry_bounce_min_pct: None,
        spread_arb_entry_bounce_window_sec: None,
        feed_ws_enabled: false,
        market_plugin: None,
        binance_assets: shipped_assets(),
        near_miss_path: None,
        trade_log_path: Some("data/trades/trades.jsonl"@),
        order_log_path: Some("data/orders/orders.jsonl"@),
        position_log_path: Some("data/positions/positions.jsonl"@),
        discovery_enabled: true,
        shadow_evolution_enabled: false,
        shadow_evolution_tuning: None,
        strategy_limits: Map::empty(),
        entry_maker_timeout_ms: 5000,
        event_archive_path: None,
        event_archive_max_mb: 512,
        event_archive_rotate_mb: 0,
        event_archive_min_free_mb: 0,
        max_orderbook_stale_ms: max_orderbook_stale_ms,
        audit_interval_sec: 30,
        audit_log_path: None,
        applied_log_path: None,
        audit_halt_entries: true,
        settlement_log_path: None,
        dry_redeem_fail: 0,
        dry_redeem_manual: false,
        fee_schedule_replay: false,
    }
}

impl CoreConfig {
    /// The settings of a kernel that was told nothing.
    pub fn with_defaults(
        risk: RiskConfig,
        positions: PositionConfig,
        max_orderbook_stale_ms: i64,
    ) -> (r: Self)
        ensures
            r@ == default_config(risk, positions, max_orderbook_stale_ms),
    {
        let r = CoreConfig {
            mode: Mode::Dry,
            default_maker_timeout_ms: 5000,
            exit_taker_slip_ticks: 2,
            risk: risk,
            dry_seed_balance: Decimal::new(10_000, 0),
            markets: Vec::new(),
            positions: positions,
            max_consecutive_losses: 3,
            breaker_cooldown_sec: 300,
            round_duration_sec: 900,
            auto_exits_enabled: true,
            engine_enabled: false,
            assets: assets_shipped(),
            enabled_strategies: Vec::new(),
            disabled_strategies: Vec::new(),
            strategy_dir: None,
            strategy_state_path: None,
            requested_strategies: Vec::new(),
            allow_zero_strategies: false,
            min_round_age_sec: 30,
            size_usd: Decimal::new(25, 1),
            min_shares: Decimal::new(10, 0),
            max_shares: Decimal::new(10, 0),
            size_pct: Decimal::zero(),
            trend_confirm_sec: 60,
            trend_window_floor_ms: 10_000,
            spread_arb_trend_entry_factor: None,
            spread_arb_entry_min_obi: None,
            spread_arb_entry_max_spread_pct: None,
            spread_arb_entry_dip_max_pct: None,
            spread_arb_entry_bounce_min_pct: None,
            spread_arb_entry_bounce_window_sec: None,
            feed_ws_enabled: false,
            market_plugin: None,
            binance_assets: assets_shipped(),
            near_miss_path: None,
            trade_log_path: Some("data/trades/trades.jsonl".to_owned()),
            order_log_path: Some("data/orders/orders.jsonl".to_owned()),
            position_log_path: Some("data/positions/positions.jsonl".to_owned()),
            discovery_enabled: true,
            shadow_evolution_enabled: false,
            shadow_evolution_tuning: None,
            strategy_limits: StrMap::new(),
            entry_maker_timeout_ms: 5000,
            event_archive_path: None,
            event_archive_max_mb: 512,
            event_archive_rotate_mb: 0,
            event_archive_min_free_mb: 0,
            max_orderbook_stale_ms: max_orderbook_stale_ms,
            audit_interval_sec: 30,
            audit_log_path: None,
            applied_log_path: None,
            audit_halt_entries: true,
            settlement_log_path: None,
            dry_redeem_fail: 0,
            dry_redeem_manual: false,
            fee_schedule_replay: false,
        };
        assert(model::texts(r.markets@) =~= Seq::empty());
        assert(model::texts(r.enabled_strategies@) =~= Seq::empty());
        assert(model::texts(r.disabled_strategies@) =~= Seq::empty());
        assert(model::texts(r.requested_strategies@) =~= Seq::empty());
        r
    }
}

} // verus!
