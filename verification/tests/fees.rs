//! Fee schedules and quotes.
use blitzkrieg_core::config::{CoreConfig, PositionConfig, RiskConfig};
use blitzkrieg_core::decimal::Decimal;
use blitzkrieg_core::fees::{
    charged_per_share, checked_charged_per_share, checked_fee_quote_at, fee_quote_at, may_charge,
    percent_fits, percent_of, FeeSchedule, PinnedFee,
};

fn dec(num: i64, scale: u32) -> Decimal {
    Decimal::new(num, scale)
}

fn legacy() -> FeeSchedule {
    FeeSchedule { name: "legacy_quadratic".to_string(), rate: dec(125, 3), exponent: 2 }
}

fn official() -> FeeSchedule {
    FeeSchedule { name: "official".to_string(), rate: dec(7, 2), exponent: 1 }
}

fn legacy_pin() -> Option<PinnedFee> {
    Some(PinnedFee { rate: dec(125, 3), exponent: 2 })
}

fn config(replay: bool) -> CoreConfig {
    let risk = RiskConfig {
        max_order_notional: dec(3, 0),
        max_order_notional_pct: dec(0, 0),
        max_open_notional_usd: dec(0, 0),
        max_price: dec(99, 2),
    };
    let positions = PositionConfig {
        max_daily_loss_equity_pct: dec(0, 0),
        exit_min_time_left_sec: 0,
    };
    let mut c = CoreConfig::with_defaults(risk, positions, 8_000);
    c.fee_schedule_replay = replay;
    c
}

#[test]
fn model_matches_reports_a_changed_rate() {
    let shipped = legacy();
    assert!(fee_quote_at(&shipped, legacy_pin(), Some(dec(5, 1)), dec(15625, 4)).model_matches);
    let repriced = FeeSchedule { rate: dec(7, 2), ..legacy() };
    assert_eq!(repriced.exponent, 2);
    let quote = fee_quote_at(&repriced, legacy_pin(), Some(dec(5, 1)), dec(875, 3));
    assert!(!quote.model_matches);
    assert_eq!(quote.fee_per_share, dec(4375, 6));
    assert_eq!(quote.fee_pct_of_price, dec(875, 3));
    assert_eq!(quote.model, "legacy_quadratic");
}

#[test]
fn model_matches_rejects_a_curve_that_only_coincides_at_the_sampled_price() {
    let crossed = FeeSchedule { rate: dec(3125, 5), exponent: 1, ..legacy() };
    // The two curves cross at one half and part elsewhere.
    assert_eq!(
        charged_per_share(dec(15625, 4), dec(5, 1)),
        charged_per_share(dec(15625, 4), dec(5, 1))
    );
    assert_ne!(
        charged_per_share(dec(1953125, 6), dec(375, 3)),
        charged_per_share(dec(18310546875, 10), dec(375, 3))
    );
    assert_eq!(crossed.name, "legacy_quadratic");
    for p in [dec(1, 1), dec(375, 3), dec(5, 1), dec(75, 2), dec(9, 1)] {
        assert!(!fee_quote_at(&crossed, legacy_pin(), Some(p), dec(15625, 4)).model_matches);
    }
    assert!(fee_quote_at(&legacy(), legacy_pin(), Some(dec(5, 1)), dec(15625, 4)).model_matches);
}

#[test]
fn model_matches_reports_a_changed_exponent_and_an_unknown_name() {
    let re_exponented = FeeSchedule { exponent: 1, ..legacy() };
    let half = Some(dec(5, 1));
    assert!(!fee_quote_at(&re_exponented, legacy_pin(), half, dec(15625, 4)).model_matches);
    let unknown = FeeSchedule { name: "not_a_schedule".to_string(), ..legacy() };
    assert!(!fee_quote_at(&unknown, None, half, dec(15625, 4)).model_matches);
}

#[test]
fn the_shipped_quote_matches_the_pin_and_the_anchor() {
    let quote = fee_quote_at(&legacy(), legacy_pin(), None, dec(15625, 4));
    assert_eq!(quote.model, "legacy_quadratic");
    assert_eq!(quote.rate, dec(125, 3));
    assert_eq!(quote.exponent, 2);
    assert_eq!(quote.price, dec(5, 1));
    assert_eq!(quote.fee_per_share, dec(78125, 7));
    assert_eq!(quote.fee_pct_of_price, dec(15625, 4));
    assert!(quote.model_matches);
    assert_eq!(quote.maker_fee_per_share, dec(0, 0));
    assert_eq!(charged_per_share(dec(15625, 4), dec(5, 1)), quote.fee_per_share);
    let pin = Some(PinnedFee { rate: dec(7, 2), exponent: 1 });
    let official = fee_quote_at(&official(), pin, Some(dec(5, 1)), dec(35, 1));
    assert!(official.model_matches);
    assert_eq!(official.fee_pct_of_price, dec(35, 1));
    assert_eq!(official.fee_per_share, dec(175, 4));
}

#[test]
fn only_a_replay_may_charge_a_counterfactual_schedule() {
    let live = config(false);
    assert!(may_charge(&live, &legacy(), &legacy()));
    assert!(!may_charge(&live, &official(), &legacy()));
    let repriced = FeeSchedule { rate: dec(7, 2), ..legacy() };
    assert!(!may_charge(&live, &repriced, &legacy()));
    let replay = config(true);
    assert!(may_charge(&replay, &official(), &legacy()));
}

#[test]
fn a_percentage_is_taken_of_an_amount() {
    assert_eq!(percent_of(dec(18, 1), dec(2, 0)), dec(36, 3));
    assert_eq!(percent_of(dec(0, 0), dec(2, 0)), dec(0, 0));
}

#[test]
fn a_charge_beyond_the_range_is_no_charge() {
    let huge = Decimal::from_i128_with_scale(79_228_162_514_264_337_593_543_950_335, 0);
    assert!(percent_fits(dec(100, 0), huge));
    assert!(!percent_fits(dec(200, 0), huge));
    assert!(checked_charged_per_share(dec(200, 0), huge).is_none());
    assert_eq!(checked_charged_per_share(dec(15625, 4), dec(5, 1)), Some(dec(78125, 7)));
    assert!(checked_fee_quote_at(&legacy(), legacy_pin(), Some(huge), dec(200, 0)).is_none());
    assert!(checked_fee_quote_at(&legacy(), legacy_pin(), None, dec(15625, 4)).is_some());
}
