//! Why positions are being closed.
//!
//! A closing sell is submitted for a reason, and the fill that completes the close records it.
//! The table remembers the reason in between: it is a list of closes in flight, not a history. An
//! entry that outlived its position would be taken for the reason of the next position on the
//! same token.
use vstd::prelude::*;

use crate::model;
use crate::model::ExitReason;
use crate::text;

verus! {

/// The most entries that the table holds. Live use stays far below it; the bound is there so that
/// a leak cannot grow.
pub const EXIT_REASON_TABLE_MAX: usize = 64;

/// What an exit reason table holds.
#[verifier::ext_equal]
pub struct ReasonsModel {
    /// The tokens whose close is in flight, with the reasons, oldest first.
    pub entries: Seq<(Seq<char>, ExitReason)>,
    /// How many entries the bound dropped.
    pub evicted: u64,
    /// How many entries were dropped because their position was gone.
    pub swept: u64,
}

/// The place of a token in the table.
pub open spec fn place_of(s: Seq<(Seq<char>, ExitReason)>, token: Seq<char>) -> Option<int>
    decreases s.len(),
{
    if s.len() == 0 {
        None
    } else if s.last().0 == token {
        Some(s.len() - 1)
    } else {
        place_of(s.drop_last(), token)
    }
}

/// The reason that a token's close is in flight with.
pub open spec fn reason_of(s: Seq<(Seq<char>, ExitReason)>, token: Seq<char>) -> Option<
    ExitReason,
> {
    match place_of(s, token) {
        Some(i) => Some(s[i].1),
        None => None,
    }
}

/// No token stands in the table twice.
pub open spec fn tokens_differ(s: Seq<(Seq<char>, ExitReason)>) -> bool {
    forall|i: int, j: int|
        0 <= i < s.len() && 0 <= j < s.len() && i != j ==> (#[trigger] s[i]).0 != (#[trigger] s[j]).0
}

/// What holds of every table.
pub open spec fn reasons_inv(m: ReasonsModel) -> bool {
    tokens_differ(m.entries) && m.entries.len() <= EXIT_REASON_TABLE_MAX
}

/// A token's place is where the token stands.
pub proof fn lemma_place_of(s: Seq<(Seq<char>, ExitReason)>, token: Seq<char>)
    ensures
        match place_of(s, token) {
            Some(i) => 0 <= i < s.len() && s[i].0 == token,
            None => forall|j: int| 0 <= j < s.len() ==> (#[trigger] s[j]).0 != token,
        },
    decreases s.len(),
{
    if s.len() > 0 && s.last().0 != token {
        let front = s.drop_last();
        lemma_place_of(front, token);
        match place_of(front, token) {
            Some(i) => {
                assert(s[i] == front[i]);
            },
            None => {
                assert forall|j: int| 0 <= j < s.len() implies (#[trigger] s[j]).0 != token by {
                    if j < s.len() - 1 {
                        assert(front[j] == s[j]);
                    }
                }
            },
        }
    }
}

/// The entries with a reason noted for a token: in the token's place, or as the newest entry.
pub open spec fn with_reason(
    s: Seq<(Seq<char>, ExitReason)>,
    token: Seq<char>,
    reason: ExitReason,
) -> Seq<(Seq<char>, ExitReason)> {
    match place_of(s, token) {
        Some(i) => s.update(i, (token, reason)),
        None => s.push((token, reason)),
    }
}

/// The oldest entry whose token has no open position.
pub open spec fn first_ghost(
    s: Seq<(Seq<char>, ExitReason)>,
    open: Seq<Seq<char>>,
) -> Option<int>
    decreases s.len(),
{
    if s.len() == 0 {
        None
    } else {
        match first_ghost(s.drop_last(), open) {
            Some(i) => Some(i),
            None => if open.contains(s.last().0) {
                None
            } else {
                Some(s.len() - 1)
            },
        }
    }
}

/// The oldest ghost is the first entry without an open position.
pub proof fn lemma_first_ghost(s: Seq<(Seq<char>, ExitReason)>, open: Seq<Seq<char>>)
    ensures
        match first_ghost(s, open) {
            Some(i) => {
                &&& 0 <= i < s.len()
                &&& !open.contains(s[i].0)
                &&& forall|j: int| 0 <= j < i ==> open.contains((#[trigger] s[j]).0)
            },
            None => forall|j: int| 0 <= j < s.len() ==> open.contains((#[trigger] s[j]).0),
        },
    decreases s.len(),
{
    if s.len() > 0 {
        let front = s.drop_last();
        lemma_first_ghost(front, open);
        match first_ghost(front, open) {
            Some(i) => {
                assert(s[i] == front[i]);
                assert forall|j: int| 0 <= j < i implies open.contains((#[trigger] s[j]).0) by {
                    assert(front[j] == s[j]);
                }
            },
            None => {
                assert forall|j: int| 0 <= j < s.len() - 1 implies open.contains(
                    (#[trigger] s[j]).0,
                ) by {
                    assert(front[j] == s[j]);
                }
            },
        }
    }
}

/// The entry that the bound drops: the oldest ghost, or the oldest entry where every entry still
/// has an open position.
pub open spec fn victim(s: Seq<(Seq<char>, ExitReason)>, open: Seq<Seq<char>>) -> int {
    match first_ghost(s, open) {
        Some(i) => i,
        None => 0,
    }
}

/// A table that has noted a reason.
pub open spec fn note_step(
    m: ReasonsModel,
    token: Seq<char>,
    reason: ExitReason,
    open: Seq<Seq<char>>,
) -> ReasonsModel {
    let s = with_reason(m.entries, token, reason);
    if s.len() > EXIT_REASON_TABLE_MAX {
        ReasonsModel {
            entries: s.remove(victim(s, open)),
            evicted: (m.evicted + 1) as u64,
            ..m
        }
    } else {
        ReasonsModel { entries: s, ..m }
    }
}

/// A table that has forgotten a token.
pub open spec fn clear_step(m: ReasonsModel, token: Seq<char>) -> ReasonsModel {
    match place_of(m.entries, token) {
        Some(i) => ReasonsModel { entries: m.entries.remove(i), ..m },
        None => m,
    }
}

/// The entries whose token has an open position.
pub open spec fn kept(s: Seq<(Seq<char>, ExitReason)>, open: Seq<Seq<char>>) -> Seq<
    (Seq<char>, ExitReason),
>
    decreases s.len(),
{
    if s.len() == 0 {
        s
    } else {
        let rest = kept(s.drop_last(), open);
        if open.contains(s.last().0) {
            rest.push(s.last())
        } else {
            rest
        }
    }
}

/// A table without the entries whose token has no open position.
pub open spec fn sweep_step(m: ReasonsModel, open: Seq<Seq<char>>) -> ReasonsModel {
    ReasonsModel {
        entries: kept(m.entries, open),
        swept: (m.swept + (m.entries.len() - kept(m.entries, open).len())) as u64,
        ..m
    }
}

proof fn lemma_kept(s: Seq<(Seq<char>, ExitReason)>, open: Seq<Seq<char>>)
    ensures
        kept(s, open).len() <= s.len(),
        forall|i: int|
            0 <= i < kept(s, open).len() ==> open.contains((#[trigger] kept(s, open)[i]).0)
                && s.contains(kept(s, open)[i]),
        forall|j: int|
            0 <= j < s.len() && open.contains((#[trigger] s[j]).0) ==> kept(s, open).contains(s[j]),
        tokens_differ(s) ==> tokens_differ(kept(s, open)),
    decreases s.len(),
{
    if s.len() > 0 {
        let front = s.drop_last();
        let rest = kept(front, open);
        let all = kept(s, open);
        lemma_kept(front, open);
        assert forall|i: int| 0 <= i < all.len() implies open.contains((#[trigger] all[i]).0)
            && s.contains(all[i]) by {
            if i < rest.len() {
                assert(all[i] == rest[i]);
                let j = choose|j: int| 0 <= j < front.len() && front[j] == rest[i];
                assert(s[j] == rest[i]);
            } else {
                assert(s[s.len() - 1] == all[i]);
            }
        }
        assert forall|j: int| 0 <= j < s.len() && open.contains((#[trigger] s[j]).0) implies all.contains(
        s[j]) by {
            if j < front.len() {
                assert(front[j] == s[j]);
                let i = choose|i: int| 0 <= i < rest.len() && rest[i] == s[j];
                assert(all[i] == s[j]);
            } else {
                assert(all[rest.len() as int] == s[j]);
            }
        }
        if tokens_differ(s) {
            assert(tokens_differ(front)) by {
                assert forall|i: int, j: int|
                    0 <= i < front.len() && 0 <= j < front.len() && i != j implies (
                #[trigger] front[i]).0 != (#[trigger] front[j]).0 by {
                    assert(s[i] == front[i] && s[j] == front[j]);
                }
            }
            assert forall|i: int, j: int| 0 <= i < all.len() && 0 <= j < all.len() && i != j implies (
            #[trigger] all[i]).0 != (#[trigger] all[j]).0 by {
                if i < rest.len() && j < rest.len() {
                    assert(all[i] == rest[i] && all[j] == rest[j]);
                } else {
                    let k = if i < rest.len() {
                        i
                    } else {
                        j
                    };
                    assert(all[k] == rest[k]);
                    let f = choose|f: int| 0 <= f < front.len() && front[f] == rest[k];
                    assert(s[f].0 != s[s.len() - 1].0);
                }
            }
        }
    }
}

/// The table of closes in flight.
#[derive(Debug)]
pub struct ExitReasonTable {
    entries: Vec<(String, ExitReason)>,
    evicted: u64,
    swept: u64,
}

impl View for ExitReasonTable {
    type V = ReasonsModel;

    closed spec fn view(&self) -> ReasonsModel {
        ReasonsModel {
            entries: self.entries@.map_values(|e: (String, ExitReason)| (e.0@, e.1)),
            evicted: self.evicted,
            swept: self.swept,
        }
    }
}

/// The table as a panel shows it.
#[derive(Clone, Copy, Debug)]
pub struct ExitReasonsView {
    pub tracked_count: usize,
    pub capacity: usize,
    /// The entries whose position is gone; none at rest.
    pub orphaned: usize,
    pub evicted_total: u64,
    pub swept_total: u64,
}

/// The table is shown as it is: what it holds, of that what no open position answers for, and what
/// was removed so far.
pub open spec fn shows_reasons(v: ExitReasonsView, m: ReasonsModel, open: Seq<Seq<char>>) -> bool {
    &&& v.tracked_count == m.entries.len()
    &&& v.capacity == EXIT_REASON_TABLE_MAX
    &&& v.orphaned == m.entries.len() - kept(m.entries, open).len()
    &&& v.evicted_total == m.evicted
    &&& v.swept_total == m.swept
}

impl ExitReasonTable {
    /// No token stands in the table twice, and the table is within its bound.
    pub open spec fn wf(self) -> bool {
        reasons_inv(self@)
    }

    /// A table with no entry.
    pub fn new() -> (r: Self)
        ensures
            r.wf(),
            r@ == (ReasonsModel { entries: Seq::empty(), evicted: 0, swept: 0 }),
    {
        let r = ExitReasonTable { entries: Vec::new(), evicted: 0, swept: 0 };
        assert(r@.entries =~= Seq::empty());
        r
    }

    /// How many closes are in flight.
    pub fn len(&self) -> (r: usize)
        ensures
            r == self@.entries.len(),
    {
        self.entries.len()
    }

    fn find(&self, token: &str) -> (r: Option<usize>)
        requires
            self.wf(),
        ensures
            match r {
                Some(i) => place_of(self@.entries, token@) == Some(i as int),
                None => place_of(self@.entries, token@) is None,
            },
            r matches Some(i) ==> i < self.entries@.len(),
    {
        let ghost s = self@.entries;
        proof {
            lemma_place_of(s, token@);
        }
        let mut i: usize = 0;
        while i < self.entries.len()
            invariant
                self.wf(),
                s == self@.entries,
                i <= s.len(),
                forall|j: int| 0 <= j < i ==> (#[trigger] s[j]).0 != token@,
                match place_of(s, token@) {
                    Some(k) => 0 <= k < s.len() && s[k].0 == token@,
                    None => forall|j: int| 0 <= j < s.len() ==> (#[trigger] s[j]).0 != token@,
                },
            decreases s.len() - i,
        {
            assert(s[i as int].0 == self.entries@[i as int].0@);
            if text::same_text(self.entries[i].0.as_str(), token) {
                return Some(i);
            }
            i = i + 1;
        }
        None
    }

    /// The reason that a token's close is in flight with.
    pub fn get(&self, token: &str) -> (r: Option<ExitReason>)
        requires
            self.wf(),
        ensures
            r == reason_of(self@.entries, token@),
    {
        match self.find(token) {
            Some(i) => {
                assert(self@.entries[i as int].1 == self.entries@[i as int].1);
                Some(self.entries[i].1)
            },
            None => None,
        }
    }

    /// Notes the reason that a close of a token was submitted with. `open` are the tokens with an
    /// open position: where the table is full, an entry without one is dropped first.
    pub fn note_exit_reason(&mut self, token: &str, reason: ExitReason, open: &Vec<String>)
        requires
            old(self).wf(),
            old(self)@.evicted < u64::MAX,
        ensures
            final(self).wf(),
            final(self)@ == note_step(old(self)@, token@, reason, model::texts(open@)),
    {
        let ghost before = self@.entries;
        proof {
            lemma_place_of(before, token@);
        }
        match self.find(token) {
            Some(i) => {
                self.entries.set(i, (token.to_owned(), reason));
                assert(self@.entries =~= before.update(i as int, (token@, reason)));
            },
            None => {
                self.entries.push((token.to_owned(), reason));
                assert(self@.entries =~= before.push((token@, reason)));
            },
        }
        let ghost s = self@.entries;
        assert(tokens_differ(s));
        if self.entries.len() > EXIT_REASON_TABLE_MAX {
            let v: usize = self.find_victim(open);
            let _ = self.entries.remove(v);
            self.evicted = self.evicted + 1;
            proof {
                assert(self@.entries =~= s.remove(v as int));
                assert forall|i: int, j: int|
                    0 <= i < self@.entries.len() && 0 <= j < self@.entries.len() && i != j implies (
                #[trigger] self@.entries[i]).0 != (#[trigger] self@.entries[j]).0 by {
                    let a = if i < v {
                        i
                    } else {
                        i + 1
                    };
                    let b = if j < v {
                        j
                    } else {
                        j + 1
                    };
                    assert(self@.entries[i] == s[a] && self@.entries[j] == s[b]);
                }
            }
        }
    }

    fn find_victim(&self, open: &Vec<String>) -> (r: usize)
        requires
            self.entries@.len() > 0,
        ensures
            r < self.entries@.len(),
            r == victim(self@.entries, model::texts(open@)),
    {
        let ghost s = self@.entries;
        let ghost o = model::texts(open@);
        proof {
            lemma_first_ghost(s, o);
        }
        let mut i: usize = 0;
        while i < self.entries.len()
            invariant
                s == self@.entries,
                o == model::texts(open@),
                i <= s.len(),
                forall|j: int| 0 <= j < i ==> o.contains((#[trigger] s[j]).0),
                match first_ghost(s, o) {
                    Some(k) => {
                        &&& 0 <= k < s.len()
                        &&& !o.contains(s[k].0)
                        &&& forall|j: int| 0 <= j < k ==> o.contains((#[trigger] s[j]).0)
                    },
                    None => forall|j: int| 0 <= j < s.len() ==> o.contains((#[trigger] s[j]).0),
                },
            decreases s.len() - i,
        {
            assert(s[i as int].0 == self.entries@[i as int].0@);
            if !text::is_listed(open, self.entries[i].0.as_str()) {
                return i;
            }
            i = i + 1;
        }
        0
    }

    /// Takes the reason of a token's close: the fill that completes the close uses it, and it
    /// does not outlive the close.
    pub fn take_exit_reason(&mut self, token: &str) -> (r: Option<ExitReason>)
        requires
            old(self).wf(),
        ensures
            final(self).wf(),
            r == reason_of(old(self)@.entries, token@),
            final(self)@ == clear_step(old(self)@, token@),
    {
        let ghost s = self@.entries;
        match self.find(token) {
            Some(i) => {
                assert(s[i as int].1 == self.entries@[i as int].1);
                let (_, reason) = self.entries.remove(i);
                proof {
                    assert(self@.entries =~= s.remove(i as int));
                    assert forall|a: int, b: int|
                        0 <= a < self@.entries.len() && 0 <= b < self@.entries.len() && a
                            != b implies (#[trigger] self@.entries[a]).0 != (
                    #[trigger] self@.entries[b]).0 by {
                        let x = if a < i {
                            a
                        } else {
                            a + 1
                        };
                        let y = if b < i {
                            b
                        } else {
                            b + 1
                        };
                        assert(self@.entries[a] == s[x] && self@.entries[b] == s[y]);
                    }
                }
                Some(reason)
            },
            None => None,
        }
    }

    /// Forgets the reason of a token's close: the close that landed carried its own.
    pub fn clear_exit_reason(&mut self, token: &str)
        requires
            old(self).wf(),
        ensures
            final(self).wf(),
            final(self)@ == clear_step(old(self)@, token@),
    {
        let _ = self.take_exit_reason(token);
    }

    /// Drops every entry whose token has no open position.
    pub fn sweep_exit_reasons(&mut self, open: &Vec<String>)
        requires
            old(self).wf(),
            old(self)@.swept + old(self)@.entries.len() <= u64::MAX,
        ensures
            final(self).wf(),
            final(self)@ == sweep_step(old(self)@, model::texts(open@)),
    {
        let ghost s = self@.entries;
        let ghost o = model::texts(open@);
        let mut rest: Vec<(String, ExitReason)> = Vec::new();
        let mut i: usize = 0;
        assert(rest@.map_values(|e: (String, ExitReason)| (e.0@, e.1)) =~= kept(s.take(0), o));
        while i < self.entries.len()
            invariant
                *self == *old(self),
                s == self@.entries,
                o == model::texts(open@),
                i <= s.len(),
                rest@.map_values(|e: (String, ExitReason)| (e.0@, e.1)) == kept(
                    s.take(i as int),
                    o,
                ),
            decreases s.len() - i,
        {
            proof {
                assert(s[i as int] == (self.entries@[i as int].0@, self.entries@[i as int].1));
                assert(s.take(i + 1).drop_last() =~= s.take(i as int));
                assert(s.take(i + 1).last() == s[i as int]);
            }
            if text::is_listed(open, self.entries[i].0.as_str()) {
                let ghost held = rest@;
                let e = (self.entries[i].0.clone(), self.entries[i].1);
                rest.push(e);
                assert(rest@.map_values(|e: (String, ExitReason)| (e.0@, e.1)) =~= held.map_values(
                    |e: (String, ExitReason)| (e.0@, e.1),
                ).push((e.0@, e.1)));
            }
            i = i + 1;
        }
        proof {
            assert(s.take(i as int) =~= s);
            lemma_kept(s, o);
        }
        let gone: usize = self.entries.len() - rest.len();
        self.entries = rest;
        self.swept = self.swept + gone as u64;
    }

    /// The table as a panel shows it.
    pub fn exit_reasons_view(&self, open: &Vec<String>) -> (r: ExitReasonsView)
        ensures
            shows_reasons(r, self@, model::texts(open@)),
    {
        let ghost s = self@.entries;
        let ghost o = model::texts(open@);
        let mut orphaned: usize = 0;
        let mut i: usize = 0;
        while i < self.entries.len()
            invariant
                s == self@.entries,
                o == model::texts(open@),
                i <= s.len(),
                orphaned <= i,
                orphaned == i - kept(s.take(i as int), o).len(),
            decreases s.len() - i,
        {
            proof {
                assert(s[i as int].0 == self.entries@[i as int].0@);
                assert(s.take(i + 1).drop_last() =~= s.take(i as int));
                assert(s.take(i + 1).last() == s[i as int]);
            }
            if !text::is_listed(open, self.entries[i].0.as_str()) {
                orphaned = orphaned + 1;
            }
            i = i + 1;
        }
        assert(s.take(i as int) =~= s);
        ExitReasonsView {
            tracked_count: self.entries.len(),
            capacity: EXIT_REASON_TABLE_MAX,
            orphaned,
            evicted_total: self.evicted,
            swept_total: self.swept,
        }
    }
}

/// A close that is over leaves no reason behind: once a token is forgotten, the next position on
/// it inherits nothing.
pub proof fn law_a_later_position_inherits_no_reason(m: ReasonsModel, token: Seq<char>)
    requires
        reasons_inv(m),
    ensures
        reason_of(clear_step(m, token).entries, token) is None,
{
    lemma_place_of(m.entries, token);
    let n = clear_step(m, token).entries;
    lemma_place_of(n, token);
    match place_of(m.entries, token) {
        Some(i) => {
            match place_of(n, token) {
                Some(j) => {
                    let k = if j < i {
                        j
                    } else {
                        j + 1
                    };
                    assert(n[j] == m.entries[k]);
                    assert(m.entries[k].0 != m.entries[i].0);
                },
                None => {},
            }
        },
        None => {},
    }
}

/// What was noted last is what a close finds, unless the full table dropped it at once.
pub proof fn law_the_newest_reason_is_found(
    m: ReasonsModel,
    token: Seq<char>,
    reason: ExitReason,
    open: Seq<Seq<char>>,
)
    requires
        reasons_inv(m),
        with_reason(m.entries, token, reason).len() <= EXIT_REASON_TABLE_MAX,
    ensures
        reason_of(note_step(m, token, reason, open).entries, token) == Some(reason),
{
    let s = with_reason(m.entries, token, reason);
    lemma_place_of(m.entries, token);
    lemma_place_of(s, token);
    match place_of(m.entries, token) {
        Some(i) => {
            assert(s[i].0 == token);
            let j = place_of(s, token)->0;
            if j != i {
                assert(s[j] == m.entries[j]);
                assert(m.entries[j].0 != m.entries[i].0);
            }
        },
        None => {
            assert(s.last().0 == token);
        },
    }
}

/// The bound never drops the reason of an open position while an entry without one remains.
pub proof fn law_the_bound_spares_open_positions(
    m: ReasonsModel,
    token: Seq<char>,
    reason: ExitReason,
    open: Seq<Seq<char>>,
    ghost_token: Seq<char>,
    live: Seq<char>,
)
    requires
        reasons_inv(m),
        !open.contains(ghost_token),
        open.contains(live),
        place_of(with_reason(m.entries, token, reason), ghost_token) is Some,
        place_of(with_reason(m.entries, token, reason), live) is Some,
    ensures
        place_of(note_step(m, token, reason, open).entries, live) is Some,
{
    let s = with_reason(m.entries, token, reason);
    let n = note_step(m, token, reason, open).entries;
    lemma_place_of(s, ghost_token);
    lemma_place_of(s, live);
    lemma_first_ghost(s, open);
    lemma_place_of(n, live);
    let i = place_of(s, live)->0;
    if s.len() > EXIT_REASON_TABLE_MAX {
        let v = victim(s, open);
        assert(s[i].0 == live && s[v].0 != live);
        if i < v {
            assert(n[i] == s[i]);
        } else {
            assert(n[i - 1] == s[i]);
        }
    }
}

/// After a sweep every entry has an open position, and no entry with one was dropped.
pub proof fn law_a_sweep_leaves_no_orphan(m: ReasonsModel, open: Seq<Seq<char>>)
    ensures
        kept(sweep_step(m, open).entries, open) == sweep_step(m, open).entries,
        forall|i: int|
            0 <= i < m.entries.len() && open.contains((#[trigger] m.entries[i]).0) ==> sweep_step(
                m,
                open,
            ).entries.contains(m.entries[i]),
{
    lemma_kept(m.entries, open);
    lemma_kept_all(kept(m.entries, open), open);
}

proof fn lemma_kept_all(s: Seq<(Seq<char>, ExitReason)>, open: Seq<Seq<char>>)
    requires
        forall|i: int| 0 <= i < s.len() ==> open.contains((#[trigger] s[i]).0),
    ensures
        kept(s, open) == s,
    decreases s.len(),
{
    if s.len() > 0 {
        let front = s.drop_last();
        assert forall|i: int| 0 <= i < front.len() implies open.contains((#[trigger] front[i]).0) by {
            assert(s[i] == front[i]);
        }
        lemma_kept_all(front, open);
        assert(s[s.len() - 1] == s.last());
        assert(kept(s, open) =~= s);
    }
}

} // verus!
