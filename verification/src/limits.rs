//! The limits on new exposure: changing them while trading, and holding an entry against them.
use vstd::prelude::*;
use vstd::string::*;

use crate::config::{CoreConfig, CoreConfigModel, RiskConfig, StrategyLimit, StrategyLimitModel};
use crate::decimal;
use crate::decimal::Decimal;
use crate::fees;
use crate::model;
use crate::model::{
    CoreError, CoreErrorCode, CoreErrorModel, OpenPosition, OrderRequest, OrderRequestModel,
};
use crate::service::{Core, CoreModel};
use crate::text;

verus! {

// ---------------------------------------------------------------------------------------------
// Changing the limits

/// New entry limits; what is absent stays.
#[derive(Debug)]
pub struct RiskLimitPatch {
    pub max_order_notional: Option<Decimal>,
    pub max_order_notional_pct: Option<Decimal>,
    pub max_open_notional_usd: Option<Decimal>,
    pub min_shares: Option<Decimal>,
    pub max_shares: Option<Decimal>,
    pub reason: Option<String>,
}

/// A limit that can be changed while trading.
#[derive(Clone, Copy, Debug, PartialEq, Eq, Structural)]
pub enum LimitField {
    MaxOrderNotional,
    MaxOrderNotionalPct,
    MaxOpenNotionalUsd,
    MinShares,
    MaxShares,
}

impl LimitField {
    /// The limit's name.
    pub open spec fn spec_name(self) -> Seq<char> {
        match self {
            LimitField::MaxOrderNotional => "maxOrderNotional"@,
            LimitField::MaxOrderNotionalPct => "maxOrderNotionalPct"@,
            LimitField::MaxOpenNotionalUsd => "maxOpenNotionalUsd"@,
            LimitField::MinShares => "minShares"@,
            LimitField::MaxShares => "maxShares"@,
        }
    }

    /// The limit's name.
    pub fn name(self) -> (r: &'static str)
        ensures
            r@ == self.spec_name(),
    {
        match self {
            LimitField::MaxOrderNotional => "maxOrderNotional",
            LimitField::MaxOrderNotionalPct => "maxOrderNotionalPct",
            LimitField::MaxOpenNotionalUsd => "maxOpenNotionalUsd",
            LimitField::MinShares => "minShares",
            LimitField::MaxShares => "maxShares",
        }
    }
}

/// A limit that was changed.
#[derive(Clone, Copy, Debug)]
pub struct RiskLimitChange {
    pub field: LimitField,
    pub from: Decimal,
    pub to: Decimal,
}

/// What was changed, when and by whom. Nothing of it is written to disk: a restart applies the
/// startup settings again.
#[derive(Debug)]
pub struct RiskLimitUpdate {
    pub applied: Vec<RiskLimitChange>,
    pub at_ms: i64,
    pub actor: String,
    pub reason: Option<String>,
    pub persisted: bool,
    /// Whether the share band moved, so that the engine has to be told.
    pub band_moved: bool,
}

/// The limits, in the order in which they are looked at.
pub open spec fn limit_fields() -> Seq<LimitField> {
    seq![
        LimitField::MaxOrderNotional,
        LimitField::MaxOrderNotionalPct,
        LimitField::MaxOpenNotionalUsd,
        LimitField::MinShares,
        LimitField::MaxShares,
    ]
}

/// What a limit is set to.
pub open spec fn limit_of(c: CoreConfigModel, field: LimitField) -> Decimal {
    match field {
        LimitField::MaxOrderNotional => c.risk.max_order_notional,
        LimitField::MaxOrderNotionalPct => c.risk.max_order_notional_pct,
        LimitField::MaxOpenNotionalUsd => c.risk.max_open_notional_usd,
        LimitField::MinShares => c.min_shares,
        LimitField::MaxShares => c.max_shares,
    }
}

/// What a patch asks of a limit.
pub open spec fn asked(p: RiskLimitPatch, field: LimitField) -> Option<Decimal> {
    match field {
        LimitField::MaxOrderNotional => p.max_order_notional,
        LimitField::MaxOrderNotionalPct => p.max_order_notional_pct,
        LimitField::MaxOpenNotionalUsd => p.max_open_notional_usd,
        LimitField::MinShares => p.min_shares,
        LimitField::MaxShares => p.max_shares,
    }
}

/// What a limit is set to after a patch.
pub open spec fn patched_limit(c: CoreConfigModel, p: RiskLimitPatch, field: LimitField) -> Decimal {
    match asked(p, field) {
        Some(to) => to,
        None => limit_of(c, field),
    }
}

/// A patch asks for nothing.
pub open spec fn asks_nothing(p: RiskLimitPatch) -> bool {
    forall|i: int| 0 <= i < limit_fields().len() ==> asked(p, #[trigger] limit_fields()[i]) is None
}

/// The first limit, among the first `n`, that a patch would set below zero.
pub open spec fn first_negative(p: RiskLimitPatch, n: int) -> Option<LimitField>
    decreases n,
{
    if n <= 0 {
        None
    } else {
        match first_negative(p, n - 1) {
            Some(f) => Some(f),
            None => {
                let f = limit_fields()[n - 1];
                match asked(p, f) {
                    Some(to) => if to@ < 0 {
                        Some(f)
                    } else {
                        None
                    },
                    None => None,
                }
            },
        }
    }
}

/// The changes that a patch asks for, among the first `n` limits, in order.
pub open spec fn changes_of(c: CoreConfigModel, p: RiskLimitPatch, n: int) -> Seq<RiskLimitChange>
    decreases n,
{
    if n <= 0 {
        Seq::empty()
    } else {
        let rest = changes_of(c, p, n - 1);
        let field = limit_fields()[n - 1];
        match asked(p, field) {
            Some(to) => rest.push(RiskLimitChange { field, from: limit_of(c, field), to }),
            None => rest,
        }
    }
}

/// Why a patch is refused; nothing where it is applied.
pub open spec fn patch_refusal(c: CoreConfigModel, p: RiskLimitPatch) -> Option<CoreErrorModel> {
    if asks_nothing(p) {
        Some(
            model::spec_error(
                CoreErrorCode::InvalidParams,
                "risk.setLimits needs at least one field; hot-reloadable: "@ + text::joined(
                    limit_fields().map_values(|f: LimitField| f.spec_name()),
                    ", "@,
                ),
            ),
        )
    } else {
        match first_negative(p, limit_fields().len() as int) {
            Some(f) => Some(
                model::spec_error(
                    CoreErrorCode::InvalidParams,
                    f.spec_name() + " must be >= 0, got "@ + decimal::text_of(asked(p, f)->0)
                        + "; nothing was applied"@,
                ),
            ),
            None => {
                let low = patched_limit(c, p, LimitField::MinShares);
                let high = patched_limit(c, p, LimitField::MaxShares);
                if low@ > high@ {
                    Some(
                        model::spec_error(
                            CoreErrorCode::InvalidParams,
                            "minShares "@ + decimal::text_of(low) + " would exceed maxShares "@
                                + decimal::text_of(high)
                                + "; the share band must stay coherent — nothing was applied"@,
                        ),
                    )
                } else {
                    None
                }
            },
        }
    }
}

/// The settings after a patch.
pub open spec fn patched(c: CoreConfigModel, p: RiskLimitPatch) -> CoreConfigModel {
    CoreConfigModel {
        risk: RiskConfig {
            max_order_notional: patched_limit(c, p, LimitField::MaxOrderNotional),
            max_order_notional_pct: patched_limit(c, p, LimitField::MaxOrderNotionalPct),
            max_open_notional_usd: patched_limit(c, p, LimitField::MaxOpenNotionalUsd),
            ..c.risk
        },
        min_shares: patched_limit(c, p, LimitField::MinShares),
        max_shares: patched_limit(c, p, LimitField::MaxShares),
        ..c
    }
}

/// Puts a limit on the list of changes, or refuses it.
fn plan(
    changes: &mut Vec<RiskLimitChange>,
    field: LimitField,
    from: Decimal,
    to: Option<Decimal>,
) -> (r: Result<(), CoreError>)
    ensures
        match to {
            None => r is Ok && final(changes)@ == old(changes)@,
            Some(t) => if t@ < 0 {
                &&& r is Err
                &&& r->Err_0@ == model::spec_error(
                    CoreErrorCode::InvalidParams,
                    field.spec_name() + " must be >= 0, got "@ + decimal::text_of(t)
                        + "; nothing was applied"@,
                )
            } else {
                &&& r is Ok
                &&& final(changes)@ == old(changes)@.push(RiskLimitChange { field, from, to: t })
            },
        },
{
    match to {
        None => Ok(()),
        Some(t) => {
            if t.is_negative() {
                let mut message = text::join(field.name(), " must be >= 0, got ");
                message.append(t.text().as_str());
                message.append("; nothing was applied");
                return Err(CoreError::new(CoreErrorCode::InvalidParams, message));
            }
            changes.push(RiskLimitChange { field, from, to: t });
            Ok(())
        },
    }
}

fn write_fields() -> (r: Vec<String>)
    ensures
        r@.map_values(|t: String| t@) == limit_fields().map_values(
            |f: LimitField| f.spec_name(),
        ),
{
    let mut out: Vec<String> = Vec::new();
    out.push(LimitField::MaxOrderNotional.name().to_owned());
    out.push(LimitField::MaxOrderNotionalPct.name().to_owned());
    out.push(LimitField::MaxOpenNotionalUsd.name().to_owned());
    out.push(LimitField::MinShares.name().to_owned());
    out.push(LimitField::MaxShares.name().to_owned());
    assert(out@.map_values(|t: String| t@) =~= limit_fields().map_values(
        |f: LimitField| f.spec_name(),
    ));
    out
}

proof fn lemma_asks_nothing(p: RiskLimitPatch)
    ensures
        asks_nothing(p) == (p.max_order_notional is None && p.max_order_notional_pct is None
            && p.max_open_notional_usd is None && p.min_shares is None && p.max_shares is None),
{
    assert(limit_fields()[0] == LimitField::MaxOrderNotional);
    assert(limit_fields()[1] == LimitField::MaxOrderNotionalPct);
    assert(limit_fields()[2] == LimitField::MaxOpenNotionalUsd);
    assert(limit_fields()[3] == LimitField::MinShares);
    assert(limit_fields()[4] == LimitField::MaxShares);
}

fn value_or_kept(to: Option<Decimal>, kept: Decimal) -> (r: Decimal)
    ensures
        r == match to {
            Some(t) => t,
            None => kept,
        },
{
    match to {
        Some(t) => t,
        None => kept,
    }
}

/// Looks a patch through: the changes that it asks for, or why it is refused.
#[verifier::rlimit(40)]
fn plan_changes(config: &CoreConfig, patch: &RiskLimitPatch) -> (r: Result<
    Vec<RiskLimitChange>,
    CoreError,
>)
    ensures
        match r {
            Ok(changes) => patch_refusal(config@, *patch) is None && changes@ == changes_of(
                config@,
                *patch,
                5,
            ),
            Err(e) => patch_refusal(config@, *patch) == Some(e@),
        },
{
    let ghost c = config@;
    proof {
        lemma_asks_nothing(*patch);
        reveal_with_fuel(first_negative, 6);
        reveal_with_fuel(changes_of, 6);
        assert(limit_fields().len() == 5);
        assert(limit_fields()[0] == LimitField::MaxOrderNotional);
        assert(limit_fields()[1] == LimitField::MaxOrderNotionalPct);
        assert(limit_fields()[2] == LimitField::MaxOpenNotionalUsd);
        assert(limit_fields()[3] == LimitField::MinShares);
        assert(limit_fields()[4] == LimitField::MaxShares);
    }
    if patch.max_order_notional.is_none() && patch.max_order_notional_pct.is_none()
        && patch.max_open_notional_usd.is_none() && patch.min_shares.is_none()
        && patch.max_shares.is_none() {
        let names = write_fields();
        return Err(
            CoreError::new(
                CoreErrorCode::InvalidParams,
                text::join(
                    "risk.setLimits needs at least one field; hot-reloadable: ",
                    text::join_all(&names, ", ").as_str(),
                ),
            ),
        );
    }
    let risk = config.risk;
    let mut changes: Vec<RiskLimitChange> = Vec::new();
    if let Err(e) = plan(
        &mut changes,
        LimitField::MaxOrderNotional,
        risk.max_order_notional,
        patch.max_order_notional,
    ) {
        return Err(e);
    }
    assert(changes@ =~= changes_of(c, *patch, 1));
    if let Err(e) = plan(
        &mut changes,
        LimitField::MaxOrderNotionalPct,
        risk.max_order_notional_pct,
        patch.max_order_notional_pct,
    ) {
        return Err(e);
    }
    assert(changes@ =~= changes_of(c, *patch, 2));
    if let Err(e) = plan(
        &mut changes,
        LimitField::MaxOpenNotionalUsd,
        risk.max_open_notional_usd,
        patch.max_open_notional_usd,
    ) {
        return Err(e);
    }
    assert(changes@ =~= changes_of(c, *patch, 3));
    if let Err(e) = plan(
        &mut changes,
        LimitField::MinShares,
        config.min_shares,
        patch.min_shares,
    ) {
        return Err(e);
    }
    assert(changes@ =~= changes_of(c, *patch, 4));
    if let Err(e) = plan(
        &mut changes,
        LimitField::MaxShares,
        config.max_shares,
        patch.max_shares,
    ) {
        return Err(e);
    }
    assert(changes@ =~= changes_of(c, *patch, 5));
    let low = value_or_kept(patch.min_shares, config.min_shares);
    let high = value_or_kept(patch.max_shares, config.max_shares);
    if high.less(low) {
        let mut message = text::join("minShares ", low.text().as_str());
        message.append(" would exceed maxShares ");
        message.append(high.text().as_str());
        message.append("; the share band must stay coherent — nothing was applied");
        return Err(CoreError::new(CoreErrorCode::InvalidParams, message));
    }
    Ok(changes)
}

/// Writes the limits of a patch.
fn write_limits(config: &mut CoreConfig, patch: &RiskLimitPatch)
    ensures
        final(config)@ == patched(old(config)@, *patch),
{
    let risk = config.risk;
    config.risk = RiskConfig {
        max_order_notional: value_or_kept(patch.max_order_notional, risk.max_order_notional),
        max_order_notional_pct: value_or_kept(
            patch.max_order_notional_pct,
            risk.max_order_notional_pct,
        ),
        max_open_notional_usd: value_or_kept(
            patch.max_open_notional_usd,
            risk.max_open_notional_usd,
        ),
        max_price: risk.max_price,
    };
    config.min_shares = value_or_kept(patch.min_shares, config.min_shares);
    config.max_shares = value_or_kept(patch.max_shares, config.max_shares);
}

impl Core {
    /// Changes entry limits while trading, all of them or none: the patch is looked through before
    /// anything is written. The limits bound new exposure alone, so that a tighter one can never
    /// trap a position.
    pub fn apply_risk_limits(
        &mut self,
        patch: &RiskLimitPatch,
        actor: &str,
        now_ms: i64,
    ) -> (r: Result<RiskLimitUpdate, CoreError>)
        requires
            old(self).wf(),
        ensures
            final(self).wf(),
            match r {
                Ok(u) => {
                    &&& patch_refusal(old(self)@.config, *patch) is None
                    &&& final(self)@ == (CoreModel {
                        config: patched(old(self)@.config, *patch),
                        ..old(self)@
                    })
                    &&& u.applied@ == changes_of(old(self)@.config, *patch, 5)
                    &&& u.at_ms == now_ms
                    &&& u.actor@ == actor@
                    &&& model::opt_text(u.reason) == model::opt_text(patch.reason)
                    &&& !u.persisted
                    &&& u.band_moved == (patch.min_shares is Some || patch.max_shares is Some)
                },
                Err(e) => {
                    &&& patch_refusal(old(self)@.config, *patch) == Some(e@)
                    &&& final(self)@ == old(self)@
                },
            },
    {
        let changes = match plan_changes(&self.config, patch) {
            Ok(changes) => changes,
            Err(e) => {
                return Err(e);
            },
        };
        write_limits(&mut self.config, patch);
        Ok(
            RiskLimitUpdate {
                applied: changes,
                at_ms: now_ms,
                actor: actor.to_owned(),
                reason: patch.reason.clone(),
                persisted: false,
                band_moved: patch.min_shares.is_some() || patch.max_shares.is_some(),
            },
        )
    }
}

/// A patch that is applied leaves a share band that is one, and no limit that it names below zero.
pub proof fn law_applied_limits_are_coherent(c: CoreConfigModel, p: RiskLimitPatch)
    requires
        patch_refusal(c, p) is None,
    ensures
        patched(c, p).min_shares@ <= patched(c, p).max_shares@,
        p.max_order_notional is Some ==> patched(c, p).risk.max_order_notional@ >= 0,
        p.max_order_notional_pct is Some ==> patched(c, p).risk.max_order_notional_pct@ >= 0,
        p.max_open_notional_usd is Some ==> patched(c, p).risk.max_open_notional_usd@ >= 0,
        p.min_shares is Some ==> patched(c, p).min_shares@ >= 0,
        p.max_shares is Some ==> patched(c, p).max_shares@ >= 0,
{
    reveal_with_fuel(first_negative, 6);
    assert(limit_fields().len() == 5);
    assert(limit_fields()[0] == LimitField::MaxOrderNotional);
    assert(limit_fields()[1] == LimitField::MaxOrderNotionalPct);
    assert(limit_fields()[2] == LimitField::MaxOpenNotionalUsd);
    assert(limit_fields()[3] == LimitField::MinShares);
    assert(limit_fields()[4] == LimitField::MaxShares);
}

// ---------------------------------------------------------------------------------------------
// Holding an entry against the limits

/// The cost of each open position.
pub open spec fn costs(positions: Seq<OpenPosition>) -> Seq<Decimal> {
    positions.map_values(|p: OpenPosition| p.cost_usd)
}

/// The positions of a strategy.
pub open spec fn held_by(positions: Seq<OpenPosition>, strategy: Seq<char>) -> Seq<OpenPosition>
    decreases positions.len(),
{
    if positions.len() == 0 {
        Seq::empty()
    } else {
        let rest = held_by(positions.drop_last(), strategy);
        if positions.last().strategy@ == strategy {
            rest.push(positions.last())
        } else {
            rest
        }
    }
}

/// The notional of an order.
pub open spec fn notional(q: OrderRequestModel) -> Decimal {
    q.price.spec_times(q.size)
}

/// The exposure with an order added stays in range.
pub open spec fn exposure_ok(held: Seq<Decimal>, q: OrderRequestModel) -> bool {
    decimal::total_ok(held) && q.price.times_ok(q.size) && decimal::total(held).plus_ok(notional(q))
}

/// What is held and what comes in, against a cap.
pub open spec fn over_cap_text(used: Decimal, incoming: Decimal, cap: Decimal) -> Seq<char> {
    "notional cap ("@ + decimal::text_of(used) + "+"@ + decimal::text_of(incoming) + " > "@
        + decimal::text_of(cap) + ")"@
}

fn write_over_cap(used: Decimal, incoming: Decimal, cap: Decimal) -> (r: String)
    ensures
        r@ == over_cap_text(used, incoming, cap),
{
    let mut out = text::join("notional cap (", used.text().as_str());
    out.append("+");
    out.append(incoming.text().as_str());
    out.append(" > ");
    out.append(cap.text().as_str());
    out.append(")");
    out
}

/// Why an entry is refused for the exposure of all strategies together; a cap of zero is none.
pub open spec fn portfolio_refusal(
    cap: Decimal,
    positions: Seq<OpenPosition>,
    q: OrderRequestModel,
) -> Option<Seq<char>> {
    let used = decimal::total(costs(positions));
    if cap@ <= 0 || used.spec_plus(notional(q))@ <= cap@ {
        None
    } else {
        Some("portfolio "@ + over_cap_text(used, notional(q), cap))
    }
}

/// Why an entry is refused for the exposure of its own strategy.
pub open spec fn strategy_refusal(
    limit: StrategyLimitModel,
    positions: Seq<OpenPosition>,
    q: OrderRequestModel,
) -> Option<Seq<char>> {
    let held = held_by(positions, q.strategy);
    let used = decimal::total(costs(held));
    if limit.max_open_positions is Some && held.len() >= limit.max_open_positions->0 {
        Some(
            "strategy "@ + q.strategy + " at position cap ("@ + text::nat_text(held.len()) + "/"@
                + text::nat_text(limit.max_open_positions->0 as nat) + ")"@,
        )
    } else if limit.max_open_notional_usd is Some && used.spec_plus(notional(q))@
        > limit.max_open_notional_usd->0@ {
        Some(
            "strategy "@ + q.strategy + " "@ + over_cap_text(
                used,
                notional(q),
                limit.max_open_notional_usd->0,
            ),
        )
    } else {
        None
    }
}

/// Lists the costs of open positions.
pub fn costs_of(positions: &Vec<OpenPosition>) -> (r: Vec<Decimal>)
    ensures
        r@ == costs(positions@),
{
    let mut out: Vec<Decimal> = Vec::new();
    let mut i: usize = 0;
    while i < positions.len()
        invariant
            i <= positions@.len(),
            out@ == costs(positions@).take(i as int),
        decreases positions@.len() - i,
    {
        out.push(positions[i].cost_usd);
        assert(costs(positions@).take(i + 1) =~= costs(positions@).take(i as int).push(
            costs(positions@)[i as int],
        ));
        i = i + 1;
    }
    assert(costs(positions@).take(i as int) =~= costs(positions@));
    out
}

/// Lists the costs of a strategy's positions.
pub fn costs_held_by(positions: &Vec<OpenPosition>, strategy: &str) -> (r: Vec<Decimal>)
    ensures
        r@ == costs(held_by(positions@, strategy@)),
{
    let mut out: Vec<Decimal> = Vec::new();
    let mut i: usize = 0;
    proof {
        assert(positions@.take(0) =~= Seq::empty());
        assert(costs(held_by(positions@.take(0), strategy@)) =~= Seq::empty());
    }
    while i < positions.len()
        invariant
            i <= positions@.len(),
            out@ == costs(held_by(positions@.take(i as int), strategy@)),
        decreases positions@.len() - i,
    {
        let p = &positions[i];
        let ghost before = held_by(positions@.take(i as int), strategy@);
        assert(positions@.take(i + 1).drop_last() =~= positions@.take(i as int));
        if text::same_text(p.strategy.as_str(), strategy) {
            out.push(p.cost_usd);
            assert(costs(before.push(*p)) =~= costs(before).push(p.cost_usd));
        }
        i = i + 1;
    }
    assert(positions@.take(i as int) =~= positions@);
    out
}

/// Holds an entry against the exposure of all strategies together.
pub fn portfolio_limit_ok(cap: Decimal, positions: &Vec<OpenPosition>, req: &OrderRequest) -> (r:
    Result<(), String>)
    requires
        cap@ > 0 ==> exposure_ok(costs(positions@), req@),
    ensures
        match r {
            Ok(_) => portfolio_refusal(cap, positions@, req@) is None,
            Err(why) => portfolio_refusal(cap, positions@, req@) == Some(why@),
        },
{
    if !cap.is_positive() {
        return Ok(());
    }
    let used = decimal::sum_of(&costs_of(positions));
    let incoming = req.price.times(req.size);
    if cap.less(used.plus(incoming)) {
        return Err(text::join("portfolio ", write_over_cap(used, incoming, cap).as_str()));
    }
    Ok(())
}

/// Holds an entry against the exposure of its own strategy.
pub fn strategy_limit_ok(
    limit: &StrategyLimit,
    positions: &Vec<OpenPosition>,
    req: &OrderRequest,
) -> (r: Result<(), String>)
    requires
        limit.max_open_notional_usd is Some ==> exposure_ok(
            costs(held_by(positions@, req@.strategy)),
            req@,
        ),
    ensures
        match r {
            Ok(_) => strategy_refusal(limit@, positions@, req@) is None,
            Err(why) => strategy_refusal(limit@, positions@, req@) == Some(why@),
        },
{
    let held = costs_held_by(positions, req.strategy.as_str());
    if let Some(max) = limit.max_open_positions {
        if held.len() >= max {
            let mut why = text::join("strategy ", req.strategy.as_str());
            why.append(" at position cap (");
            why.append(text::write_u64(held.len() as u64).as_str());
            why.append("/");
            why.append(text::write_u64(max as u64).as_str());
            why.append(")");
            return Err(why);
        }
    }
    if let Some(max) = limit.max_open_notional_usd {
        let used = decimal::sum_of(&held);
        let incoming = req.price.times(req.size);
        if max.less(used.plus(incoming)) {
            let mut why = text::join("strategy ", req.strategy.as_str());
            why.append(" ");
            why.append(write_over_cap(used, incoming, max).as_str());
            return Err(why);
        }
    }
    Ok(())
}

// ---------------------------------------------------------------------------------------------
// What one order can commit

/// The sizing in force: a strategy's own, or the kernel's.
#[derive(Clone, Copy, Debug)]
pub struct EffectiveSizing {
    pub size_usd: Decimal,
    pub min_shares: Decimal,
    pub max_shares: Decimal,
    pub size_pct: Decimal,
    /// Whether a strategy's own limit changed it.
    pub strategy_scoped: bool,
    pub size_weight: Option<Decimal>,
}

/// The most that one order can commit on this account, and what bounds it.
#[derive(Clone, Copy, Debug)]
pub struct SizingView {
    pub equity_usd: Decimal,
    pub min_shares: Decimal,
    pub max_shares: Decimal,
    pub max_price: Decimal,
    /// The widest ticket at the highest price.
    pub share_band_usd: Decimal,
    pub size_pct: Decimal,
    /// The budget of an entry, where it is a part of the equity.
    pub size_budget_usd: Option<Decimal>,
    pub max_order_notional_usd: Decimal,
    pub max_order_notional_pct: Decimal,
    /// The cap on one order, where it is a part of the equity.
    pub equity_cap_usd: Option<Decimal>,
    /// The tightest of the bounds.
    pub worst_case_order_usd: Decimal,
    pub worst_case_pct_of_equity: Option<Decimal>,
    /// A close is never held against the cap.
    pub closes_exempt_from_equity_cap: bool,
}

/// The kernel's own sizing.
pub open spec fn global_sizing(c: CoreConfigModel) -> EffectiveSizing {
    EffectiveSizing {
        size_usd: c.size_usd,
        min_shares: c.min_shares,
        max_shares: c.max_shares,
        size_pct: c.size_pct,
        strategy_scoped: false,
        size_weight: None,
    }
}

/// The widest ticket at the highest price.
pub open spec fn share_band(g: EffectiveSizing, risk: RiskConfig) -> Decimal {
    g.max_shares.spec_max(Decimal::spec_zero()).spec_times(
        risk.max_price.spec_max(Decimal::spec_zero()),
    )
}

/// A part of the equity, where the part and the equity are above zero.
pub open spec fn equity_part(equity: Decimal, pct: Decimal) -> Option<Decimal> {
    if pct@ > 0 && equity@ > 0 {
        Some(equity.spec_times(pct).spec_over(fees::hundred()))
    } else {
        None
    }
}

/// A part of the equity stays in range.
pub open spec fn equity_part_ok(equity: Decimal, pct: Decimal) -> bool {
    pct@ > 0 && equity@ > 0 ==> equity.times_ok(pct) && equity.spec_times(pct).over_ok(
        fees::hundred(),
    )
}

/// The smaller of a bound and an optional one.
pub open spec fn tighter(bound: Decimal, other: Option<Decimal>) -> Decimal {
    match other {
        Some(o) => bound.spec_min(o),
        None => bound,
    }
}

/// The most that one order can commit.
pub open spec fn worst_case(equity: Decimal, g: EffectiveSizing, risk: RiskConfig) -> Decimal {
    tighter(
        tighter(share_band(g, risk), equity_part(equity, g.size_pct)),
        equity_part(equity, risk.max_order_notional_pct),
    )
}

/// What is computed of the sizing stays in range.
pub open spec fn sizing_ok(equity: Decimal, g: EffectiveSizing, risk: RiskConfig) -> bool {
    &&& g.max_shares.spec_max(Decimal::spec_zero()).times_ok(
        risk.max_price.spec_max(Decimal::spec_zero()),
    )
    &&& equity_part_ok(equity, g.size_pct)
    &&& equity_part_ok(equity, risk.max_order_notional_pct)
    &&& equity@ > 0 ==> worst_case(equity, g, risk).over_ok(equity) && worst_case(
        equity,
        g,
        risk,
    ).spec_over(equity).times_ok(fees::hundred())
}

/// The bounds of one order are shown as they are, and the tightest of them as the worst case.
pub open spec fn shows_sizing(
    v: SizingView,
    equity: Decimal,
    g: EffectiveSizing,
    risk: RiskConfig,
) -> bool {
    &&& v.equity_usd == equity
    &&& v.min_shares == g.min_shares
    &&& v.max_shares == g.max_shares
    &&& v.max_price == risk.max_price
    &&& v.share_band_usd == share_band(g, risk)
    &&& v.size_pct == g.size_pct
    &&& v.size_budget_usd == equity_part(equity, g.size_pct)
    &&& v.max_order_notional_usd == risk.max_order_notional
    &&& v.max_order_notional_pct == risk.max_order_notional_pct
    &&& v.equity_cap_usd == equity_part(equity, risk.max_order_notional_pct)
    &&& v.worst_case_order_usd == worst_case(equity, g, risk)
    &&& v.worst_case_pct_of_equity == if equity@ > 0 {
        Some(
            worst_case(equity, g, risk).spec_over(equity).spec_times(fees::hundred()),
        )
    } else {
        None
    }
    &&& v.closes_exempt_from_equity_cap
    &&& v.worst_case_order_usd@ <= v.share_band_usd@
    &&& v.size_budget_usd matches Some(b) ==> v.worst_case_order_usd@ <= b@
    &&& v.equity_cap_usd matches Some(b) ==> v.worst_case_order_usd@ <= b@
}

fn part_of_equity(equity: Decimal, pct: Decimal) -> (r: Option<Decimal>)
    requires
        equity_part_ok(equity, pct),
    ensures
        r == equity_part(equity, pct),
{
    if pct.is_positive() && equity.is_positive() {
        Some(equity.times(pct).over(fees::one_hundred()))
    } else {
        None
    }
}

fn tighten(bound: Decimal, other: Option<Decimal>) -> (r: Decimal)
    ensures
        r == tighter(bound, other),
        r@ <= bound@,
        other matches Some(o) ==> r@ <= o@,
{
    match other {
        Some(o) => bound.min(o),
        None => bound,
    }
}

impl Core {
    /// The kernel's own sizing, as the settings have it.
    pub fn configured_sizing(&self) -> (r: EffectiveSizing)
        ensures
            r == global_sizing(self@.config),
    {
        EffectiveSizing {
            size_usd: self.config.size_usd,
            min_shares: self.config.min_shares,
            max_shares: self.config.max_shares,
            size_pct: self.config.size_pct,
            strategy_scoped: false,
            size_weight: None,
        }
    }

    /// The most that one order can commit on this account: the widest ticket, the entry's budget
    /// and the cap on one order, whichever is tightest. The engine's sizing counts where there is
    /// an engine, and the settings' where there is none.
    pub fn sizing_view(&self, equity: Decimal, engine: Option<EffectiveSizing>) -> (r: SizingView)
        requires
            sizing_ok(
                equity,
                match engine {
                    Some(g) => g,
                    None => global_sizing(self@.config),
                },
                self@.config.risk,
            ),
        ensures
            shows_sizing(
                r,
                equity,
                match engine {
                    Some(g) => g,
                    None => global_sizing(self@.config),
                },
                self@.config.risk,
            ),
    {
        let g = match engine {
            Some(g) => g,
            None => self.configured_sizing(),
        };
        let risk = self.config.risk;
        let band = g.max_shares.max(Decimal::zero()).times(risk.max_price.max(Decimal::zero()));
        let budget = part_of_equity(equity, g.size_pct);
        let cap = part_of_equity(equity, risk.max_order_notional_pct);
        let worst = tighten(tighten(band, budget), cap);
        SizingView {
            equity_usd: equity,
            min_shares: g.min_shares,
            max_shares: g.max_shares,
            max_price: risk.max_price,
            share_band_usd: band,
            size_pct: g.size_pct,
            size_budget_usd: budget,
            max_order_notional_usd: risk.max_order_notional,
            max_order_notional_pct: risk.max_order_notional_pct,
            equity_cap_usd: cap,
            worst_case_order_usd: worst,
            worst_case_pct_of_equity: if equity.is_positive() {
                Some(worst.over(equity).times(fees::one_hundred()))
            } else {
                None
            },
            closes_exempt_from_equity_cap: true,
        }
    }
}

/// A strategy's cap looks at its own positions alone: what others hold neither fills it nor frees
/// it.
pub proof fn law_a_strategy_cap_counts_its_own_positions(
    limit: StrategyLimitModel,
    positions: Seq<OpenPosition>,
    other: OpenPosition,
    q: OrderRequestModel,
)
    requires
        other.strategy@ != q.strategy,
    ensures
        strategy_refusal(limit, positions.push(other), q) == strategy_refusal(limit, positions, q),
{
    assert(positions.push(other).drop_last() =~= positions);
}

/// An entry that takes a capped strategy to its number of positions is the last one.
pub proof fn law_the_position_cap_binds(
    limit: StrategyLimitModel,
    positions: Seq<OpenPosition>,
    q: OrderRequestModel,
)
    requires
        limit.max_open_positions is Some,
    ensures
        strategy_refusal(limit, positions, q) is None ==> held_by(positions, q.strategy).len()
            < limit.max_open_positions->0,
{
}

/// What positions cost in all.
pub open spec fn invested(positions: Seq<OpenPosition>) -> int
    decreases positions.len(),
{
    if positions.len() == 0 {
        0
    } else {
        invested(positions.drop_last()) + positions.last().cost_usd@
    }
}

/// What the positions of one strategy cost in all.
pub open spec fn invested_by(positions: Seq<OpenPosition>, strategy: Seq<char>) -> int
    decreases positions.len(),
{
    if positions.len() == 0 {
        0
    } else {
        invested_by(positions.drop_last(), strategy) + if positions.last().strategy@ == strategy {
            positions.last().cost_usd@
        } else {
            0
        }
    }
}

/// How many positions a strategy has.
pub open spec fn count_by(positions: Seq<OpenPosition>, strategy: Seq<char>) -> nat
    decreases positions.len(),
{
    if positions.len() == 0 {
        0
    } else {
        count_by(positions.drop_last(), strategy) + if positions.last().strategy@ == strategy {
            1nat
        } else {
            0
        }
    }
}

/// An order's notional needs no rounding, and neither does what it makes of the exposure.
pub open spec fn plain_exposure(held: Seq<Decimal>, q: OrderRequestModel) -> bool {
    &&& q.price.well_formed()
    &&& q.size.well_formed()
    &&& q.price.times_plain(q.size)
    &&& decimal::total_plain(held)
    &&& decimal::total(held).plus_plain(q.price.spec_times(q.size))
}

proof fn lemma_costs_value(positions: Seq<OpenPosition>)
    ensures
        decimal::value_total(costs(positions)) == invested(positions),
    decreases positions.len(),
{
    if positions.len() > 0 {
        assert(costs(positions).drop_last() =~= costs(positions.drop_last()));
        lemma_costs_value(positions.drop_last());
    }
}

proof fn lemma_held_value(positions: Seq<OpenPosition>, strategy: Seq<char>)
    ensures
        invested(held_by(positions, strategy)) == invested_by(positions, strategy),
        held_by(positions, strategy).len() == count_by(positions, strategy),
    decreases positions.len(),
{
    if positions.len() > 0 {
        lemma_held_value(positions.drop_last(), strategy);
        let rest = held_by(positions.drop_last(), strategy);
        assert(rest.push(positions.last()).drop_last() =~= rest);
    }
}

proof fn lemma_exposure_value(held: Seq<Decimal>, q: OrderRequestModel)
    requires
        plain_exposure(held, q),
    ensures
        decimal::total(held).spec_plus(notional(q))@ * decimal::one_unit() == decimal::value_total(
            held,
        ) * decimal::one_unit() + q.price@ * q.size@,
{
    decimal::lemma_total_plain(held);
    decimal::lemma_times_plain(q.price, q.size);
    decimal::lemma_plus_plain(decimal::total(held), notional(q));
    let a = decimal::value_total(held);
    let b = notional(q)@;
    let u = decimal::one_unit();
    assert((a + b) * u == a * u + b * u) by (nonlinear_arith);
}

proof fn lemma_against_cap(sum: int, cap: int)
    ensures
        sum <= cap <==> sum * decimal::one_unit() <= cap * decimal::one_unit(),
{
    let u = decimal::one_unit();
    assert(sum <= cap <==> sum * u <= cap * u) by (nonlinear_arith)
        requires
            u > 0,
    ;
}

/// An entry is admitted under a portfolio cap just where what is held and what comes in stay within
/// it; a cap that is not above zero admits every entry.
pub proof fn law_the_portfolio_stays_within_its_cap(
    cap: Decimal,
    positions: Seq<OpenPosition>,
    paid: Seq<Decimal>,
    q: OrderRequestModel,
)
    requires
        paid.len() == positions.len(),
        forall|i: int| 0 <= i < paid.len() ==> #[trigger] paid[i] == positions[i].cost_usd,
    ensures
        cap@ <= 0 ==> portfolio_refusal(cap, positions, q) is None,
        cap@ > 0 ==> (portfolio_refusal(cap, positions, q) is None <==> decimal::total(
            paid,
        ).spec_plus(q.price.spec_times(q.size))@ <= cap@),
        cap@ > 0 && plain_exposure(paid, q) ==> (portfolio_refusal(cap, positions, q) is None
            <==> invested(positions) * decimal::one_unit() + q.price@ * q.size@ <= cap@
            * decimal::one_unit()),
{
    assert(paid =~= costs(positions));
    lemma_costs_value(positions);
    if plain_exposure(paid, q) {
        lemma_exposure_value(paid, q);
        lemma_against_cap(decimal::total(paid).spec_plus(notional(q))@, cap@);
    }
}

/// More exposure never opens the portfolio: an entry that was refused stays refused with one more
/// position held, and an entry that is larger at no lower a price is refused where a smaller one was.
pub proof fn law_more_exposure_never_admits_an_entry(
    cap: Decimal,
    positions: Seq<OpenPosition>,
    more: OpenPosition,
    q: OrderRequestModel,
    larger: OrderRequestModel,
)
    requires
        plain_exposure(costs(positions), q),
        plain_exposure(costs(positions.push(more)), q),
        plain_exposure(costs(positions), larger),
        more.cost_usd@ >= 0,
        0 <= q.price@ <= larger.price@,
        0 <= q.size@ <= larger.size@,
        portfolio_refusal(cap, positions, q) is Some,
    ensures
        portfolio_refusal(cap, positions.push(more), q) is Some,
        portfolio_refusal(cap, positions, larger) is Some,
{
    law_the_portfolio_stays_within_its_cap(cap, positions, costs(positions), q);
    law_the_portfolio_stays_within_its_cap(cap, positions, costs(positions), larger);
    law_the_portfolio_stays_within_its_cap(
        cap,
        positions.push(more),
        costs(positions.push(more)),
        q,
    );
    assert(positions.push(more).drop_last() =~= positions);
    let u = decimal::one_unit();
    let a = invested(positions);
    let b = more.cost_usd@;
    assert((a + b) * u >= a * u) by (nonlinear_arith)
        requires
            b >= 0,
            u > 0,
    ;
    let (p1, s1, p2, s2) = (q.price@, q.size@, larger.price@, larger.size@);
    assert(p1 * s1 <= p2 * s2) by (nonlinear_arith)
        requires
            0 <= p1 <= p2,
            0 <= s1 <= s2,
    ;
}

/// A strategy's entry is admitted just where its positions are fewer than its cap on them, and what
/// they cost stays within its cap on that with the entry added; a cap that is not set binds nothing.
/// The positions of others do not count.
pub proof fn law_a_strategy_stays_within_its_caps(
    limit: StrategyLimitModel,
    positions: Seq<OpenPosition>,
    q: OrderRequestModel,
)
    requires
        limit.max_open_notional_usd is Some ==> plain_exposure(
            costs(held_by(positions, q.strategy)),
            q,
        ),
    ensures
        strategy_refusal(limit, positions, q) is None <==> {
            &&& limit.max_open_positions matches Some(most) ==> count_by(positions, q.strategy)
                < most
            &&& limit.max_open_notional_usd matches Some(cap) ==> invested_by(
                positions,
                q.strategy,
            ) * decimal::one_unit() + q.price@ * q.size@ <= cap@ * decimal::one_unit()
        },
{
    let held = held_by(positions, q.strategy);
    lemma_held_value(positions, q.strategy);
    lemma_costs_value(held);
    if limit.max_open_notional_usd is Some {
        lemma_exposure_value(costs(held), q);
        lemma_against_cap(
            decimal::total(costs(held)).spec_plus(notional(q))@,
            limit.max_open_notional_usd->0@,
        );
    }
}

/// The most that one order can commit is no more than the widest ticket at the highest price, and no
/// more than either part of the equity; and it is one of the three.
pub proof fn law_the_worst_case_is_the_tightest_bound(
    v: SizingView,
    equity: Decimal,
    g: EffectiveSizing,
    risk: RiskConfig,
)
    requires
        shows_sizing(v, equity, g, risk),
        g.max_shares.well_formed(),
        risk.max_price.well_formed(),
        g.max_shares.times_plain(risk.max_price),
        g.max_shares@ >= 0,
        risk.max_price@ >= 0,
    ensures
        v.worst_case_order_usd@ * decimal::one_unit() <= g.max_shares@ * risk.max_price@,
        v.size_budget_usd is Some <==> g.size_pct@ > 0 && equity@ > 0,
        v.equity_cap_usd is Some <==> risk.max_order_notional_pct@ > 0 && equity@ > 0,
        v.size_budget_usd matches Some(b) ==> v.worst_case_order_usd@ <= b@,
        v.equity_cap_usd matches Some(b) ==> v.worst_case_order_usd@ <= b@,
        v.worst_case_order_usd == v.share_band_usd || v.size_budget_usd == Some(
            v.worst_case_order_usd,
        ) || v.equity_cap_usd == Some(v.worst_case_order_usd),
        v.worst_case_pct_of_equity is Some <==> equity@ > 0,
{
    decimal::lemma_zero();
    decimal::lemma_times_plain(g.max_shares, risk.max_price);
    lemma_against_cap(v.worst_case_order_usd@, v.share_band_usd@);
}

/// A patch changes the limits that it names, to what it asks, and no other setting; and it tells of
/// each change what the limit was and what it is.
pub proof fn law_a_patch_sets_what_it_names(c: CoreConfigModel, p: RiskLimitPatch)
    ensures
        p.max_order_notional matches Some(x) ==> patched(c, p).risk.max_order_notional == x,
        p.max_order_notional_pct matches Some(x) ==> patched(c, p).risk.max_order_notional_pct == x,
        p.max_open_notional_usd matches Some(x) ==> patched(c, p).risk.max_open_notional_usd == x,
        p.min_shares matches Some(x) ==> patched(c, p).min_shares == x,
        p.max_shares matches Some(x) ==> patched(c, p).max_shares == x,
        p.max_order_notional is None ==> patched(c, p).risk.max_order_notional
            == c.risk.max_order_notional,
        p.max_order_notional_pct is None ==> patched(c, p).risk.max_order_notional_pct
            == c.risk.max_order_notional_pct,
        p.max_open_notional_usd is None ==> patched(c, p).risk.max_open_notional_usd
            == c.risk.max_open_notional_usd,
        p.min_shares is None ==> patched(c, p).min_shares == c.min_shares,
        p.max_shares is None ==> patched(c, p).max_shares == c.max_shares,
        patched(c, p).risk.max_price == c.risk.max_price,
        patched(c, p) == (CoreConfigModel {
            risk: patched(c, p).risk,
            min_shares: patched(c, p).min_shares,
            max_shares: patched(c, p).max_shares,
            ..c
        }),
{
}

/// A patch that sets a limit below zero, that would turn the share band round, or that names nothing
/// is refused; every other patch is applied.
pub proof fn law_a_patch_is_refused_where_it_makes_no_sense(c: CoreConfigModel, p: RiskLimitPatch)
    ensures
        patch_refusal(c, p) is None <==> {
            &&& p.max_order_notional is Some || p.max_order_notional_pct is Some
                || p.max_open_notional_usd is Some || p.min_shares is Some || p.max_shares is Some
            &&& p.max_order_notional matches Some(x) ==> x@ >= 0
            &&& p.max_order_notional_pct matches Some(x) ==> x@ >= 0
            &&& p.max_open_notional_usd matches Some(x) ==> x@ >= 0
            &&& p.min_shares matches Some(x) ==> x@ >= 0
            &&& p.max_shares matches Some(x) ==> x@ >= 0
            &&& (match p.min_shares {
                Some(x) => x@,
                None => c.min_shares@,
            }) <= (match p.max_shares {
                Some(x) => x@,
                None => c.max_shares@,
            })
        },
{
    reveal_with_fuel(first_negative, 6);
    let f = limit_fields();
    assert(f.len() == 5);
    assert(asks_nothing(p) <==> asked(p, f[0]) is None && asked(p, f[1]) is None && asked(p, f[2]) is None
        && asked(p, f[3]) is None && asked(p, f[4]) is None);
}

proof fn lemma_told_changes(c: CoreConfigModel, p: RiskLimitPatch, n: int)
    requires
        0 <= n <= 5,
    ensures
        forall|i: int|
            0 <= i < changes_of(c, p, n).len() ==> {
                let x = #[trigger] changes_of(c, p, n)[i];
                asked(p, x.field) == Some(x.to) && limit_of(c, x.field) == x.from
            },
        forall|k: int|
            0 <= k < n && asked(p, #[trigger] limit_fields()[k]) is Some ==> exists|i: int|
                0 <= i < changes_of(c, p, n).len() && (#[trigger] changes_of(c, p, n)[i]).field
                    == limit_fields()[k],
    decreases n,
{
    if n > 0 {
        lemma_told_changes(c, p, n - 1);
        let rest = changes_of(c, p, n - 1);
        let all = changes_of(c, p, n);
        assert forall|k: int|
            0 <= k < n && asked(p, #[trigger] limit_fields()[k]) is Some implies exists|i: int|
            0 <= i < all.len() && (#[trigger] all[i]).field == limit_fields()[k] by {
            if k < n - 1 {
                let i = choose|i: int|
                    0 <= i < rest.len() && (#[trigger] rest[i]).field == limit_fields()[k];
                assert(all[i] == rest[i]);
            } else {
                assert(all[all.len() - 1].field == limit_fields()[k]);
            }
        }
    }
}

/// The changes that a patch tells of are those that it makes: each names a limit that the patch
/// asks for, what that limit was and what it is now, and no limit that it asks for is left out.
pub proof fn law_each_change_is_told(c: CoreConfigModel, p: RiskLimitPatch)
    ensures
        forall|i: int|
            0 <= i < changes_of(c, p, 5).len() ==> {
                let x = #[trigger] changes_of(c, p, 5)[i];
                &&& x.field == LimitField::MaxOrderNotional ==> Some(x.to) == p.max_order_notional
                    && x.from == c.risk.max_order_notional
                &&& x.field == LimitField::MaxOrderNotionalPct ==> Some(x.to)
                    == p.max_order_notional_pct && x.from == c.risk.max_order_notional_pct
                &&& x.field == LimitField::MaxOpenNotionalUsd ==> Some(x.to)
                    == p.max_open_notional_usd && x.from == c.risk.max_open_notional_usd
                &&& x.field == LimitField::MinShares ==> Some(x.to) == p.min_shares && x.from
                    == c.min_shares
                &&& x.field == LimitField::MaxShares ==> Some(x.to) == p.max_shares && x.from
                    == c.max_shares
            },
        p.max_order_notional is Some ==> tells_of(c, p, LimitField::MaxOrderNotional),
        p.max_order_notional_pct is Some ==> tells_of(c, p, LimitField::MaxOrderNotionalPct),
        p.max_open_notional_usd is Some ==> tells_of(c, p, LimitField::MaxOpenNotionalUsd),
        p.min_shares is Some ==> tells_of(c, p, LimitField::MinShares),
        p.max_shares is Some ==> tells_of(c, p, LimitField::MaxShares),
{
    lemma_told_changes(c, p, 5);
    assert(limit_fields()[0] == LimitField::MaxOrderNotional);
    assert(limit_fields()[1] == LimitField::MaxOrderNotionalPct);
    assert(limit_fields()[2] == LimitField::MaxOpenNotionalUsd);
    assert(limit_fields()[3] == LimitField::MinShares);
    assert(limit_fields()[4] == LimitField::MaxShares);
}

/// A patch tells of a limit.
pub open spec fn tells_of(c: CoreConfigModel, p: RiskLimitPatch, field: LimitField) -> bool {
    exists|i: int|
        0 <= i < changes_of(c, p, 5).len() && (#[trigger] changes_of(c, p, 5)[i]).field == field
}

// ---------------------------------------------------------------------------------------------
// Asking beforehand

fn exposure_fits(held: &Vec<Decimal>, req: &OrderRequest) -> (r: bool)
    ensures
        r == exposure_ok(held@, req@),
{
    match decimal::checked_sum(held) {
        Some(used) => req.price.can_times(req.size) && used.can_plus(req.price.times(req.size)),
        None => false,
    }
}

/// Whether the exposure that the portfolio cap looks at stays in range.
pub fn portfolio_fits(cap: Decimal, positions: &Vec<OpenPosition>, req: &OrderRequest) -> (r: bool)
    ensures
        r == (cap@ > 0 ==> exposure_ok(costs(positions@), req@)),
{
    !cap.is_positive() || exposure_fits(&costs_of(positions), req)
}

/// Whether the exposure that a strategy's cap looks at stays in range.
pub fn strategy_fits(limit: &StrategyLimit, positions: &Vec<OpenPosition>, req: &OrderRequest) -> (r:
    bool)
    ensures
        r == (limit.max_open_notional_usd is Some ==> exposure_ok(
            costs(held_by(positions@, req@.strategy)),
            req@,
        )),
{
    limit.max_open_notional_usd.is_none() || exposure_fits(
        &costs_held_by(positions, req.strategy.as_str()),
        req,
    )
}

/// Holds an entry against the exposure of all strategies together, where it stays in range.
pub fn checked_portfolio_limit_ok(
    cap: Decimal,
    positions: &Vec<OpenPosition>,
    req: &OrderRequest,
) -> (r: Option<Result<(), String>>)
    ensures
        match r {
            Some(Ok(_)) => portfolio_refusal(cap, positions@, req@) is None,
            Some(Err(why)) => portfolio_refusal(cap, positions@, req@) == Some(why@),
            None => cap@ > 0 && !exposure_ok(costs(positions@), req@),
        },
{
    if portfolio_fits(cap, positions, req) {
        Some(portfolio_limit_ok(cap, positions, req))
    } else {
        None
    }
}

/// Holds an entry against the exposure of its own strategy, where it stays in range.
pub fn checked_strategy_limit_ok(
    limit: &StrategyLimit,
    positions: &Vec<OpenPosition>,
    req: &OrderRequest,
) -> (r: Option<Result<(), String>>)
    ensures
        match r {
            Some(Ok(_)) => strategy_refusal(limit@, positions@, req@) is None,
            Some(Err(why)) => strategy_refusal(limit@, positions@, req@) == Some(why@),
            None => limit.max_open_notional_usd is Some && !exposure_ok(
                costs(held_by(positions@, req@.strategy)),
                req@,
            ),
        },
{
    if strategy_fits(limit, positions, req) {
        Some(strategy_limit_ok(limit, positions, req))
    } else {
        None
    }
}

fn part_fits(equity: Decimal, pct: Decimal) -> (r: bool)
    ensures
        r == equity_part_ok(equity, pct),
{
    let h = fees::one_hundred();
    !pct.is_positive() || !equity.is_positive() || (equity.can_times(pct) && equity.times(
        pct,
    ).can_over(h))
}

/// Whether what is computed of the sizing stays in range.
pub fn sizing_fits(equity: Decimal, g: EffectiveSizing, risk: RiskConfig) -> (r: bool)
    ensures
        r == sizing_ok(equity, g, risk),
{
    let shares = g.max_shares.max(Decimal::zero());
    let price = risk.max_price.max(Decimal::zero());
    if !shares.can_times(price) || !part_fits(equity, g.size_pct) || !part_fits(
        equity,
        risk.max_order_notional_pct,
    ) {
        return false;
    }
    if !equity.is_positive() {
        return true;
    }
    let budget = part_of_equity(equity, g.size_pct);
    let cap = part_of_equity(equity, risk.max_order_notional_pct);
    let worst = tighten(tighten(shares.times(price), budget), cap);
    worst.can_over(equity) && worst.over(equity).can_times(fees::one_hundred())
}

impl Core {
    /// The most that one order can commit on this account, where what is computed stays in range.
    pub fn checked_sizing_view(&self, equity: Decimal, engine: Option<EffectiveSizing>) -> (r: Option<
        SizingView,
    >)
        ensures
            ({
                let g = match engine {
                    Some(g) => g,
                    None => global_sizing(self@.config),
                };
                match r {
                    Some(v) => shows_sizing(v, equity, g, self@.config.risk),
                    None => !sizing_ok(equity, g, self@.config.risk),
                }
            }),
    {
        let g = match engine {
            Some(g) => g,
            None => self.configured_sizing(),
        };
        if sizing_fits(equity, g, self.config.risk) {
            Some(self.sizing_view(equity, engine))
        } else {
            None
        }
    }
}

} // verus!
