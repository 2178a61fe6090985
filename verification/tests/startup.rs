//! What a start loads, in which order, and when it is refused.
use blitzkrieg_core::config::{CoreConfig, PositionConfig, RiskConfig};
use blitzkrieg_core::decimal::Decimal;
use blitzkrieg_core::model::{CashFlows, OpenPosition, OrderRole, SignalDirection};
use blitzkrieg_core::startup::{
    is_dog_strategy_artifact, is_loaded_file, is_skipped_directory, load_order, may_scan,
    read_load_receipt, AutoLoad, LibraryFile,
};
use blitzkrieg_core::strategies::{
    load_receipt, may_reload, may_unload, parse_decision, unload_receipt, Decision, Dropped,
    LoadedLibrary,
};

fn dec(num: i64, scale: u32) -> Decimal {
    Decimal::new(num, scale)
}

fn settings() -> CoreConfig {
    let risk = RiskConfig {
        max_order_notional: dec(3, 0),
        max_order_notional_pct: dec(0, 0),
        max_open_notional_usd: dec(0, 0),
        max_price: dec(99, 2),
    };
    let positions = PositionConfig {
        max_daily_loss_equity_pct: dec(10, 0),
        exit_min_time_left_sec: 15,
    };
    CoreConfig::with_defaults(risk, positions, 8_000)
}

fn held(id: &str, token: &str, shares: Decimal) -> OpenPosition {
    OpenPosition {
        id: id.to_string(),
        strategy: "spread_arb".to_string(),
        asset: "BTC".to_string(),
        direction: SignalDirection::Up,
        token_id: token.to_string(),
        condition_id: "cond".to_string(),
        entry_price: dec(40, 2),
        current_price: dec(40, 2),
        prev_price: dec(40, 2),
        shares,
        cost_usd: dec(80, 2),
        was_maker_entry: false,
        entry_fee_pct: dec(0, 0),
        entry_role: OrderRole::Taker,
        exit_role: OrderRole::Taker,
        target_exit_price: None,
        entered_at_ms: 1,
        expires_at_ms: 1_800_000,
        last_book_ts: 0,
        flows: CashFlows {
            entry_cost_usd: dec(80, 2),
            entry_fee_usd: dec(0, 0),
            exit_fee_usd: dec(0, 0),
            proceeds_usd: dec(0, 0),
            opened_shares: shares,
        },
    }
}

fn texts(names: &[&str]) -> Vec<String> {
    names.iter().map(|n| n.to_string()).collect()
}

/// A file below the strategy directory.
fn file(path: &str) -> LibraryFile {
    LibraryFile { path: path.split('/').map(|n| n.to_string()).collect() }
}

/// Whether a file is found: every directory above it is entered, and it is a library.
fn found(path: &str) -> bool {
    let names: Vec<&str> = path.split('/').collect();
    let (name, above) = names.split_last().unwrap();
    for (i, dir) in above.iter().enumerate() {
        if is_skipped_directory(dir) || !may_scan(i + 1) {
            return false;
        }
    }
    let extension = name.rsplit_once('.').map(|(_, e)| e.to_string());
    is_loaded_file(Some(name.to_string()), extension)
}

#[test]
fn strategy_lib_collector_finds_dylibs_and_skips_other_files() {
    let files = ["liba.dylib", "target/release/libb.so", "readme.txt", "Cargo.toml"];
    let hits: Vec<&str> = files.into_iter().filter(|f| found(f)).collect();
    assert_eq!(hits, vec!["liba.dylib", "target/release/libb.so"]);
}

#[test]
fn strategy_lib_collector_respects_depth_bound() {
    assert!(!found("l0/l1/l2/l3/l4/l5/l6/l7/toodeep.dylib"));
    assert!(found("l0/l1/l2/l3/l4/l5/deep.dylib"));
    assert!(!found("l0/l1/l2/l3/l4/l5/l6/deep.dylib"));
}

#[test]
fn what_only_tests_load_is_passed_over() {
    assert!(!found("deps/liba.so"));
    assert!(!found("build/liba.so"));
    assert!(!found("incremental/liba.so"));
    assert!(!found(".git/liba.so"));
    assert!(!found("my_probe/liba.so"));
    assert!(!found("devcheck_x/liba.so"));
    assert!(!found("libmy_probe.so"));
    assert!(!found("libdevcheck.so"));
    assert!(!found("libdog_strategy.so"));
    assert!(!found("dog_strategy/liba.so"));
    assert!(is_dog_strategy_artifact("libdog_strategy.so"));
    assert!(is_dog_strategy_artifact("dog_strategy-1a2b.dylib"));
    assert!(!is_dog_strategy_artifact("libdog_strategy2.so"));
    assert!(found("libdog_strategy2.so"));
    // A name that is no text is not held against a file.
    assert!(is_loaded_file(None, Some("so".to_string())));
    assert!(!is_loaded_file(None, None));
}

#[test]
fn the_shipped_legs_are_loaded_first() {
    let libs = vec![
        file("z/libmine.so"),
        file("libmean_reversion.so"),
        file("b/libtrend_follow.so"),
        file("a/libtrend_follow.so"),
        file("libspread_arb.so"),
        file("liba.so"),
    ];
    let sorted: Vec<String> =
        load_order(libs).iter().map(|l| l.path.join("/")).collect();
    assert_eq!(
        sorted,
        vec![
            "libspread_arb.so",
            "a/libtrend_follow.so",
            "b/libtrend_follow.so",
            "libmean_reversion.so",
            "liba.so",
            "z/libmine.so",
        ]
    );
}

#[test]
fn a_receipt_tells_whether_a_library_was_taken() {
    let l = LoadedLibrary {
        name: "fader".to_string(),
        version: "1.2.0".to_string(),
        exempt_gates: texts(&["timing", "momentum"]),
        timing_floor_sec: Some(180),
        knobs: texts(&["factor", "floor"]),
    };
    let receipt = load_receipt(&l);
    assert_eq!(
        receipt,
        "fader@1.2.0 registered into the engine dispatch (disabled; declares gate exemptions: \
         timing,momentum (timing floor 180s); declares evolvable knobs: factor,floor)"
    );
    assert_eq!(read_load_receipt(&receipt), AutoLoad::Loaded);
    let plain = LoadedLibrary {
        name: "plain".to_string(),
        version: "0.1".to_string(),
        exempt_gates: Vec::new(),
        timing_floor_sec: None,
        knobs: Vec::new(),
    };
    assert_eq!(
        load_receipt(&plain),
        "plain@0.1 registered into the engine dispatch (disabled; not evolvable (no knobs \
         declared))"
    );
    assert_eq!(read_load_receipt("fader is already registered"), AutoLoad::Duplicate);
    assert_eq!(read_load_receipt("rejected: not approved"), AutoLoad::Failed);
}

#[test]
fn an_explicit_request_that_resolves_to_nothing_refuses_the_boot() {
    let boot = |requested: &[&str], disabled: &[&str], allow: bool| {
        let mut c = settings();
        c.engine_enabled = true;
        c.requested_strategies = texts(requested);
        c.disabled_strategies = texts(disabled);
        c.allow_zero_strategies = allow;
        c.strategy_startup_self_check(
            &Vec::new(),
            &Vec::new(),
            &texts(&["user_layer/strategies"]),
            "BK_STRATEGY_ALLOW",
        )
    };
    assert!(boot(&[], &[], false).refused.is_none());
    let err = boot(&["dog_strategy"], &[], false).refused.unwrap();
    assert!(err.contains("refusing to start") && err.contains("dog_strategy"));
    assert!(err.contains("--allow-zero-strategies"));
    assert!(err.contains("the engine's live set is []"));
    assert!(boot(&["dog_strategy"], &[], true).refused.is_none());
    assert!(boot(&["dog_strategy"], &["dog_strategy"], false).refused.is_none());
    let err = boot(&["dog_strategy", "cat_strategy"], &[], false).refused.unwrap();
    assert!(err.contains("dog_strategy") && err.contains("cat_strategy"));
    assert!(err.starts_with("refusing to start: none of the 2 explicitly requested strategies"));
}

#[test]
fn one_strategy_that_resolves_is_enough() {
    let mut c = settings();
    c.requested_strategies = texts(&["a", "b"]);
    let registered = texts(&["b", "c"]);
    let r = c.strategy_startup_self_check(&registered, &texts(&["b"]), &Vec::new(), "X");
    assert_eq!(
        r.line,
        "blitzkrieg-core: strategy startup self-check: requested=2 resolved=1 enabled=[b]"
    );
    assert!(r.refused.is_none());
}

#[test]
fn a_strategy_that_holds_positions_stays() {
    let positions = vec![held("pos_1", "tok", dec(10, 0))];
    assert!(may_unload("other", &positions).is_ok());
    assert_eq!(
        may_unload("spread_arb", &positions).unwrap_err(),
        "rejected: spread_arb still holds 1 open position(s) — close them before unloading"
    );
    assert_eq!(
        may_reload("spread_arb", true, &positions, Ok("spread_arb".to_string())).unwrap_err(),
        "rejected: spread_arb still holds 1 open position(s) — a reload with exposure in flight \
         is undefined; close first"
    );
}

#[test]
fn a_reload_that_fails_keeps_what_runs() {
    let none = Vec::new();
    assert!(may_reload("a", true, &none, Ok("a".to_string())).is_ok());
    assert_eq!(
        may_reload("a", false, &none, Ok("a".to_string())).unwrap_err(),
        "not found: no strategy named a"
    );
    assert_eq!(
        may_reload("a", true, &none, Err("no such file".to_string())).unwrap_err(),
        "reload FAILED (old instance kept): no such file"
    );
    assert_eq!(
        may_reload("a", true, &none, Ok("b".to_string())).unwrap_err(),
        "reload FAILED (old instance kept): the library registers b, not a"
    );
}

#[test]
fn an_unload_is_told_as_it_went() {
    assert_eq!(
        unload_receipt("a", &Dropped::Done),
        "a unloaded (engine dispatch removed); library freed"
    );
    assert_eq!(unload_receipt("a", &Dropped::Unknown), "not found: no strategy named a");
    assert_eq!(
        unload_receipt("a", &Dropped::Refused { reason: "busy".to_string() }),
        "rejected: busy"
    );
    assert_eq!(unload_receipt("a", &Dropped::NoEngine), "Failed: strategy engine not attached");
}

#[test]
fn a_decision_is_read_from_its_word() {
    assert_eq!(parse_decision("accept"), Ok(Decision::Accept));
    assert_eq!(parse_decision("accepted"), Ok(Decision::Accept));
    assert_eq!(parse_decision("reject"), Ok(Decision::Reject));
    assert_eq!(parse_decision("rejected"), Ok(Decision::Reject));
    assert_eq!(parse_decision("defer"), Ok(Decision::Defer));
    assert_eq!(parse_decision("deferred"), Ok(Decision::Defer));
    assert_eq!(
        parse_decision("maybe"),
        Err("unknown decision 'maybe' (accept|reject|defer)".to_string())
    );
}
