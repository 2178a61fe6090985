//! Strategy libraries that come and go while the kernel runs, and verdicts on what the shadow
//! evolution proposes.
use vstd::prelude::*;
use vstd::string::*;

use crate::limits;
use crate::model;
use crate::model::OpenPosition;
use crate::text;

verus! {

// ---------------------------------------------------------------------------------------------
// Loading

/// What a library says of itself as it is loaded.
#[derive(Debug)]
pub struct LoadedLibrary {
    pub name: String,
    pub version: String,
    /// The entry gates that it says it does not need.
    pub exempt_gates: Vec<String>,
    /// How close to a round's end its exemption from the timing gate reaches.
    pub timing_floor_sec: Option<i64>,
    /// The knobs that may evolve.
    pub knobs: Vec<String>,
}

/// What the receipt of a load says of the gates.
pub open spec fn gates_text(gates: Seq<Seq<char>>, floor: Option<i64>) -> Seq<char> {
    if gates.len() == 0 {
        ""@
    } else {
        "; declares gate exemptions: "@ + text::joined(gates, ","@) + match floor {
            Some(n) => " (timing floor "@ + text::int_text(n as int) + "s)"@,
            None => ""@,
        }
    }
}

/// What the receipt of a load says of the knobs.
pub open spec fn knobs_text(knobs: Seq<Seq<char>>) -> Seq<char> {
    if knobs.len() == 0 {
        "; not evolvable (no knobs declared)"@
    } else {
        "; declares evolvable knobs: "@ + text::joined(knobs, ","@)
    }
}

/// The receipt of a load. A library starts switched off; what it declares is shown before anybody
/// switches it on.
pub open spec fn load_text(l: LoadedLibrary) -> Seq<char> {
    l.name@ + "@"@ + l.version@ + " registered into the engine dispatch (disabled"@ + gates_text(
        model::texts(l.exempt_gates@),
        l.timing_floor_sec,
    ) + knobs_text(model::texts(l.knobs@)) + ")"@
}

/// Writes the receipt of a load.
pub fn load_receipt(l: &LoadedLibrary) -> (r: String)
    ensures
        r@ == load_text(*l),
{
    let mut gates = "".to_owned();
    if l.exempt_gates.len() > 0 {
        gates = text::join(
            "; declares gate exemptions: ",
            text::join_all(&l.exempt_gates, ",").as_str(),
        );
        match l.timing_floor_sec {
            Some(n) => {
                let mut floor = text::join(" (timing floor ", text::write_i64(n).as_str());
                floor.append("s)");
                gates.append(floor.as_str());
            },
            None => {
                gates.append("");
            },
        }
    }
    assert(gates@ == gates_text(model::texts(l.exempt_gates@), l.timing_floor_sec));
    let knobs = if l.knobs.len() == 0 {
        "; not evolvable (no knobs declared)".to_owned()
    } else {
        text::join("; declares evolvable knobs: ", text::join_all(&l.knobs, ",").as_str())
    };
    let mut out = text::join(l.name.as_str(), "@");
    out.append(l.version.as_str());
    out.append(" registered into the engine dispatch (disabled");
    out.append(gates.as_str());
    out.append(knobs.as_str());
    out.append(")");
    out
}

// ---------------------------------------------------------------------------------------------
// Unloading

/// How many positions a strategy holds.
pub open spec fn held_count(positions: Seq<OpenPosition>, strategy: Seq<char>) -> nat {
    limits::held_by(positions, strategy).len()
}

/// Why a strategy is not unloaded: it holds positions that only it knows how to leave.
pub open spec fn unload_refusal(name: Seq<char>, positions: Seq<OpenPosition>) -> Option<Seq<char>> {
    if held_count(positions, name) > 0 {
        Some(
            "rejected: "@ + name + " still holds "@ + text::nat_text(held_count(positions, name))
                + " open position(s) — close them before unloading"@,
        )
    } else {
        None
    }
}

/// Whether a strategy may be unloaded, as far as its positions go.
pub fn may_unload(name: &str, positions: &Vec<OpenPosition>) -> (r: Result<(), String>)
    ensures
        match r {
            Ok(_) => unload_refusal(name@, positions@) is None,
            Err(why) => unload_refusal(name@, positions@) == Some(why@),
        },
{
    let held = limits::costs_held_by(positions, name);
    if held.len() > 0 {
        let mut why = text::join("rejected: ", name);
        why.append(" still holds ");
        why.append(text::write_u64(held.len() as u64).as_str());
        why.append(" open position(s) — close them before unloading");
        return Err(why);
    }
    Ok(())
}

/// What the engine says of a strategy that it was told to drop.
#[derive(Debug)]
pub enum Dropped {
    Done,
    Unknown,
    Refused { reason: String },
    NoEngine,
}

/// The receipt of an unload.
pub open spec fn unload_text(name: Seq<char>, d: Dropped) -> Seq<char> {
    match d {
        Dropped::Done => name + " unloaded (engine dispatch removed); library freed"@,
        Dropped::Unknown => "not found: no strategy named "@ + name,
        Dropped::Refused { reason } => "rejected: "@ + reason@,
        Dropped::NoEngine => "Failed: strategy engine not attached"@,
    }
}

/// Writes the receipt of an unload.
pub fn unload_receipt(name: &str, d: &Dropped) -> (r: String)
    ensures
        r@ == unload_text(name@, *d),
{
    match d {
        Dropped::Done => text::join(name, " unloaded (engine dispatch removed); library freed"),
        Dropped::Unknown => text::join("not found: no strategy named ", name),
        Dropped::Refused { reason } => text::join("rejected: ", reason.as_str()),
        Dropped::NoEngine => "Failed: strategy engine not attached".to_owned(),
    }
}

// ---------------------------------------------------------------------------------------------
// Reloading

/// Why a reload is refused before anything is touched: the strategy is not there, it holds
/// positions, or the new library did not load under its name. A library that does not load never
/// costs the one that runs.
pub open spec fn reload_refusal(
    name: Seq<char>,
    known: bool,
    positions: Seq<OpenPosition>,
    staged: Result<Seq<char>, Seq<char>>,
) -> Option<Seq<char>> {
    if !known {
        Some("not found: no strategy named "@ + name)
    } else if held_count(positions, name) > 0 {
        Some(
            "rejected: "@ + name + " still holds "@ + text::nat_text(held_count(positions, name))
                + " open position(s) — a reload with exposure in flight is undefined; close first"@,
        )
    } else {
        match staged {
            Err(why) => Some("reload FAILED (old instance kept): "@ + why),
            Ok(other) => if other != name {
                Some(
                    "reload FAILED (old instance kept): the library registers "@ + other
                        + ", not "@ + name,
                )
            } else {
                None
            },
        }
    }
}

/// What a library that was loaded for a reload is called, or why it did not load.
pub open spec fn staged_name(staged: Result<String, String>) -> Result<Seq<char>, Seq<char>> {
    match staged {
        Ok(n) => Ok(n@),
        Err(why) => Err(why@),
    }
}

/// Whether a reload may take the place of the instance that runs.
pub fn may_reload(
    name: &str,
    known: bool,
    positions: &Vec<OpenPosition>,
    staged: Result<String, String>,
) -> (r: Result<(), String>)
    ensures
        match r {
            Ok(_) => reload_refusal(name@, known, positions@, staged_name(staged)) is None,
            Err(why) => reload_refusal(name@, known, positions@, staged_name(staged)) == Some(
                why@,
            ),
        },
{
    if !known {
        return Err(text::join("not found: no strategy named ", name));
    }
    let held = limits::costs_held_by(positions, name);
    if held.len() > 0 {
        let mut why = text::join("rejected: ", name);
        why.append(" still holds ");
        why.append(text::write_u64(held.len() as u64).as_str());
        why.append(
            " open position(s) — a reload with exposure in flight is undefined; close first",
        );
        return Err(why);
    }
    match staged {
        Err(why) => Err(text::join("reload FAILED (old instance kept): ", why.as_str())),
        Ok(other) => {
            if text::same_text(other.as_str(), name) {
                Ok(())
            } else {
                let mut why = text::join(
                    "reload FAILED (old instance kept): the library registers ",
                    other.as_str(),
                );
                why.append(", not ");
                why.append(name);
                Err(why)
            }
        },
    }
}

/// A strategy that holds positions is neither unloaded nor reloaded.
pub proof fn law_a_strategy_with_positions_stays(
    name: Seq<char>,
    positions: Seq<OpenPosition>,
    staged: Result<Seq<char>, Seq<char>>,
)
    requires
        held_count(positions, name) > 0,
    ensures
        unload_refusal(name, positions) is Some,
        reload_refusal(name, true, positions, staged) is Some,
{
}

// ---------------------------------------------------------------------------------------------
// Verdicts on proposals

/// A verdict on a proposal.
#[derive(Clone, Copy, Debug, PartialEq, Eq, Structural)]
pub enum Decision {
    Accept,
    Reject,
    Defer,
}

/// The verdict that a word stands for.
pub open spec fn decision_named(word: Seq<char>) -> Option<Decision> {
    if word == "accept"@ || word == "accepted"@ {
        Some(Decision::Accept)
    } else if word == "reject"@ || word == "rejected"@ {
        Some(Decision::Reject)
    } else if word == "defer"@ || word == "deferred"@ {
        Some(Decision::Defer)
    } else {
        None
    }
}

/// Reads a verdict; another word is refused.
pub fn parse_decision(word: &str) -> (r: Result<Decision, String>)
    ensures
        match r {
            Ok(d) => decision_named(word@) == Some(d),
            Err(why) => decision_named(word@) is None && why@ == "unknown decision '"@ + word@
                + "' (accept|reject|defer)"@,
        },
{
    if text::same_text(word, "accept") || text::same_text(word, "accepted") {
        Ok(Decision::Accept)
    } else if text::same_text(word, "reject") || text::same_text(word, "rejected") {
        Ok(Decision::Reject)
    } else if text::same_text(word, "defer") || text::same_text(word, "deferred") {
        Ok(Decision::Defer)
    } else {
        let mut why = text::join("unknown decision '", word);
        why.append("' (accept|reject|defer)");
        Err(why)
    }
}

} // verus!
