//! Refused orders: how long to wait, when to give up, and what to call the cause.
use vstd::prelude::*;
use vstd::string::*;

use crate::model::CoreError;
use crate::text;

verus! {

/// The spacing between the first retries of a refused intent.
pub const REJECT_BACKOFF_BASE_MS: i64 = 2_000;

/// The ceiling on the spacing.
pub const REJECT_BACKOFF_MAX_MS: i64 = 30_000;

/// The attempts of one intent after which it is not retried. An intent that closes exposure is
/// exempt: walking away from it would leave the exposure unhedged.
pub const MAX_PLACE_ATTEMPTS: u32 = 8;

/// The refusals in a row that freeze trading.
pub const FREEZE_ON_REJECTS: u32 = 5;

/// The failed reconciliation sweeps in a row that freeze trading.
pub const SWEEP_FAILURE_FREEZE: u32 = 3;

/// How much of a message names the bucket of a refusal that nothing else names.
pub const REFUSAL_TEXT_MAX: usize = 32;

/// The spacing after a number of refusals: doubling from the base to the ceiling.
pub open spec fn reject_backoff(attempts: u32) -> int {
    if attempts <= 1 {
        2_000
    } else if attempts == 2 {
        4_000
    } else if attempts == 3 {
        8_000
    } else if attempts == 4 {
        16_000
    } else {
        30_000
    }
}

/// The spacing after a number of refusals.
pub fn reject_backoff_ms(attempts: u32) -> (r: i64)
    ensures
        r == reject_backoff(attempts),
{
    let less_one: u32 = if attempts == 0 {
        0
    } else {
        attempts - 1
    };
    let doubled: i64 = if less_one == 0 {
        1
    } else if less_one == 1 {
        2
    } else if less_one == 2 {
        4
    } else if less_one == 3 {
        8
    } else {
        16
    };
    let ms: i64 = REJECT_BACKOFF_BASE_MS * doubled;
    if ms < REJECT_BACKOFF_MAX_MS {
        ms
    } else {
        REJECT_BACKOFF_MAX_MS
    }
}

/// The spacing never shrinks with the refusals and stays between the base and the ceiling.
pub proof fn law_the_spacing_grows_to_its_ceiling(a: u32, b: u32)
    requires
        a <= b,
    ensures
        REJECT_BACKOFF_BASE_MS <= reject_backoff(a) <= reject_backoff(b) <= REJECT_BACKOFF_MAX_MS,
{
}

/// The intent closes exposure: an automated exit, a strategy's close, the close of a residual, or
/// a flatten.
pub open spec fn closes(internal_key: Seq<char>) -> bool {
    ||| text::starts(internal_key, "exit:"@)
    ||| text::starts(internal_key, "exit-strategy:"@)
    ||| text::starts(internal_key, "exit-residual:"@)
    ||| text::starts(internal_key, "flatten:"@)
}

/// Whether the intent closes exposure rather than opening it.
pub fn is_close_intent(internal_key: &str) -> (r: bool)
    ensures
        r == closes(internal_key@),
{
    text::starts_with(internal_key, "exit:") || text::starts_with(internal_key, "exit-strategy:")
        || text::starts_with(internal_key, "exit-residual:") || text::starts_with(
        internal_key,
        "flatten:",
    )
}

/// How the retries of one placement intent are going.
#[derive(Debug)]
pub struct RejectCooldown {
    /// The refusals in a row.
    pub attempts: u32,
    /// The earliest next attempt.
    pub next_ok_ms: i64,
    pub last_error: String,
    /// Whether the operator was told that the intent keeps bouncing.
    pub alerted: bool,
}

/// What a cooldown says.
pub struct RejectCooldownModel {
    pub attempts: u32,
    pub next_ok_ms: i64,
    pub last_error: Seq<char>,
    pub alerted: bool,
}

impl View for RejectCooldown {
    type V = RejectCooldownModel;

    open spec fn view(&self) -> RejectCooldownModel {
        RejectCooldownModel {
            attempts: self.attempts,
            next_ok_ms: self.next_ok_ms,
            last_error: self.last_error@,
            alerted: self.alerted,
        }
    }
}

impl Clone for RejectCooldown {
    fn clone(&self) -> (r: Self)
        ensures
            r@ == self@,
    {
        RejectCooldown {
            attempts: self.attempts,
            next_ok_ms: self.next_ok_ms,
            last_error: self.last_error.clone(),
            alerted: self.alerted,
        }
    }
}

impl RejectCooldown {
    /// A cooldown of an intent that was never refused.
    pub fn new() -> (r: Self)
        ensures
            r@ == no_cooldown(),
    {
        RejectCooldown { attempts: 0, next_ok_ms: 0, last_error: String::new(), alerted: false }
    }
}

/// A cooldown of an intent that was never refused.
pub open spec fn no_cooldown() -> RejectCooldownModel {
    RejectCooldownModel { attempts: 0, next_ok_ms: 0, last_error: Seq::empty(), alerted: false }
}

/// A counter that stops at its largest value.
pub open spec fn counted(n: u32) -> u32 {
    if n == u32::MAX {
        n
    } else {
        (n + 1) as u32
    }
}

/// A cooldown after one more refusal.
pub open spec fn refused(c: RejectCooldownModel, message: Seq<char>, now_ms: i64) -> RejectCooldownModel {
    RejectCooldownModel {
        attempts: counted(c.attempts),
        next_ok_ms: (now_ms + reject_backoff(counted(c.attempts))) as i64,
        last_error: message,
        ..c
    }
}

/// The intent may not be placed now: its spacing is running, or its attempts are spent and it
/// does not close exposure.
pub open spec fn blocked(
    cooldowns: Map<Seq<char>, RejectCooldownModel>,
    internal_key: Seq<char>,
    now_ms: i64,
) -> bool {
    cooldowns.dom().contains(internal_key) && {
        let c = cooldowns[internal_key];
        now_ms < c.next_ok_ms || (c.attempts >= MAX_PLACE_ATTEMPTS && !closes(internal_key))
    }
}

/// An intent that closes exposure is never given up: once its spacing is over it may be placed,
/// however often it was refused.
pub proof fn law_a_close_is_never_given_up(
    cooldowns: Map<Seq<char>, RejectCooldownModel>,
    internal_key: Seq<char>,
    now_ms: i64,
)
    requires
        closes(internal_key),
        cooldowns.dom().contains(internal_key) ==> now_ms >= cooldowns[internal_key].next_ok_ms,
    ensures
        !blocked(cooldowns, internal_key, now_ms),
{
}

/// The intents that this library names for closes are closes.
pub proof fn law_close_keys_close(id: Seq<char>)
    ensures
        closes("flatten:"@ + id),
        closes("exit:"@ + id),
        closes("exit-strategy:"@ + id),
        closes("exit-residual:"@ + id),
{
    assert(("flatten:"@ + id).subrange(0, "flatten:"@.len() as int) =~= "flatten:"@);
    assert(("exit:"@ + id).subrange(0, "exit:"@.len() as int) =~= "exit:"@);
    assert(("exit-strategy:"@ + id).subrange(0, "exit-strategy:"@.len() as int)
        =~= "exit-strategy:"@);
    assert(("exit-residual:"@ + id).subrange(0, "exit-residual:"@.len() as int)
        =~= "exit-residual:"@);
}

/// The bucket that a refusal is counted in.
pub open spec fn rejection_label(msg: Seq<char>) -> Seq<char> {
    if text::occurs(msg, "breaker active until"@) {
        "risk:breaker"@
    } else if text::starts(msg, "Max positions"@) || text::starts(msg, "Already in"@)
        || text::starts(msg, "Daily loss limit"@) {
        "positions."@ + text::in_lower_case(text::two_words(msg))
    } else if text::starts(msg, "SL cooldown"@) || text::starts(msg, "Exit cooldown"@) {
        "positions.exitCooldown"@
    } else if text::starts(msg, "Loss cooldown"@) || text::starts(msg, "Asset cooldown"@) {
        "positions.lossCooldown"@
    } else if text::occurs(msg, "position cap"@) || text::occurs(msg, "notional cap"@) {
        "limit.cap"@
    } else if text::occurs(msg, "in rejection cooldown"@) {
        "venue.cooldown"@
    } else if text::starts(msg, "notional"@) && text::occurs(msg, "exceeds per-order cap"@) {
        "risk.perOrderCap"@
    } else if text::occurs(msg, "outside"@) && text::occurs(msg, "price band"@) {
        "risk.priceBand"@
    } else {
        "other:"@ + text::beginning(msg, REFUSAL_TEXT_MAX)
    }
}

/// Names the bucket that a refusal is counted in, from the wording of its message. A message that is
/// not recognised is counted under its own beginning, so that no refusal hides among others of a
/// wrong cause.
pub fn classify_rejection(err: &CoreError) -> (r: String)
    ensures
        r@ == rejection_label(err.message@),
{
    let msg = err.message.as_str();
    if text::contains(msg, "breaker active until") {
        "risk:breaker".to_owned()
    } else if text::starts_with(msg, "Max positions") || text::starts_with(msg, "Already in")
        || text::starts_with(msg, "Daily loss limit") {
        text::join("positions.", text::two_words_lowered(msg).as_str())
    } else if text::starts_with(msg, "SL cooldown") || text::starts_with(msg, "Exit cooldown") {
        "positions.exitCooldown".to_owned()
    } else if text::starts_with(msg, "Loss cooldown") || text::starts_with(
        msg,
        "Asset cooldown",
    ) {
        "positions.lossCooldown".to_owned()
    } else if text::contains(msg, "position cap") || text::contains(msg, "notional cap") {
        "limit.cap".to_owned()
    } else if text::contains(msg, "in rejection cooldown") {
        "venue.cooldown".to_owned()
    } else if text::starts_with(msg, "notional") && text::contains(msg, "exceeds per-order cap") {
        "risk.perOrderCap".to_owned()
    } else if text::contains(msg, "outside") && text::contains(msg, "price band") {
        "risk.priceBand".to_owned()
    } else {
        text::join("other:", text::write_beginning(msg, REFUSAL_TEXT_MAX).as_str())
    }
}

} // verus!
