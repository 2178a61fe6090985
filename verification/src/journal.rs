//! Logs that keep one record a line: how records become a text and a text becomes records again.
use vstd::prelude::*;
use vstd::string::*;

use crate::model;
use crate::text;

verus! {

/// The log of the fills that were applied, by its place.
#[derive(Debug)]
pub struct AppliedFillLog {
    path: String,
}

impl AppliedFillLog {
    /// Where the log is kept.
    pub closed spec fn spec_path(self) -> Seq<char> {
        self.path@
    }

    /// A log at a place.
    pub fn new(path: String) -> (r: Self)
        ensures
            r.spec_path() == path@,
    {
        AppliedFillLog { path }
    }

    /// Where the log is kept.
    pub fn path(&self) -> (r: &str)
        ensures
            r@ == self.spec_path(),
    {
        self.path.as_str()
    }
}

/// The text of records: each on a line of its own.
pub open spec fn framed(records: Seq<Seq<char>>) -> Seq<char>
    decreases records.len(),
{
    if records.len() == 0 {
        Seq::empty()
    } else {
        framed(records.drop_last()) + records.last() + seq!['\n']
    }
}

/// How many characters stand before the end of the first line.
pub open spec fn line_run(s: Seq<char>) -> nat
    decreases s.len(),
{
    if s.len() == 0 || s[0] == '\n' {
        0
    } else {
        1 + line_run(s.skip(1))
    }
}

/// A text without the white space at its end.
pub open spec fn trimmed_end(s: Seq<char>) -> Seq<char>
    decreases s.len(),
{
    if s.len() > 0 && text::is_white(s.last()) {
        trimmed_end(s.drop_last())
    } else {
        s
    }
}

/// A text without the white space around it.
pub open spec fn trimmed(s: Seq<char>) -> Seq<char> {
    trimmed_end(s.skip(text::white_run(s) as int))
}

/// The records of a text: its lines without the white space around them, the empty ones left out.
pub open spec fn unframed(s: Seq<char>) -> Seq<Seq<char>>
    decreases s.len(),
{
    if s.len() == 0 {
        Seq::empty()
    } else {
        let n = line_run(s) as int;
        let line = trimmed(s.take(n));
        let rest = if n < s.len() {
            unframed(s.skip(n + 1))
        } else {
            Seq::empty()
        };
        if line.len() == 0 {
            rest
        } else {
            seq![line] + rest
        }
    }
}

proof fn lemma_line_run_is(s: Seq<char>, n: int)
    requires
        0 <= n <= s.len(),
        forall|i: int| 0 <= i < n ==> #[trigger] s[i] != '\n',
        n == s.len() || s[n] == '\n',
    ensures
        line_run(s) == n,
    decreases n,
{
    if n > 0 {
        assert(s[0] != '\n');
        assert forall|i: int| 0 <= i < n - 1 implies #[trigger] s.skip(1)[i] != '\n' by {
            assert(s.skip(1)[i] == s[i + 1]);
        }
        if n < s.len() {
            assert(s.skip(1)[n - 1] == s[n]);
        }
        lemma_line_run_is(s.skip(1), n - 1);
    }
}

/// Writes records as a text, each on a line of its own.
pub fn frame(records: &Vec<String>) -> (r: String)
    ensures
        r@ == framed(model::texts(records@)),
{
    let ghost all = model::texts(records@);
    let mut out = String::new();
    let mut i: usize = 0;
    proof {
        reveal_strlit("\n");
        assert("\n"@ =~= seq!['\n']);
        assert(all.take(0) =~= Seq::empty());
        assert(out@ =~= Seq::<char>::empty());
    }
    while i < records.len()
        invariant
            i <= records@.len(),
            all == model::texts(records@),
            "\n"@ == seq!['\n'],
            out@ == framed(all.take(i as int)),
        decreases records@.len() - i,
    {
        proof {
            assert(all.take(i + 1).drop_last() =~= all.take(i as int));
            assert(all.take(i + 1).last() == records@[i as int]@);
        }
        out.append(records[i].as_str());
        out.append("\n");
        i = i + 1;
    }
    assert(all.take(i as int) =~= all);
    out
}

/// A part of a text without the white space around it.
fn trim_part(v: &Vec<char>, from: usize, to: usize) -> (r: Vec<char>)
    requires
        from <= to <= v@.len(),
    ensures
        r@ == trimmed(v@.subrange(from as int, to as int)),
{
    let ghost part = v@.subrange(from as int, to as int);
    let mut start: usize = from;
    assert(part.skip(0) =~= part);
    while start < to && text::white(v[start])
        invariant
            from <= start <= to <= v@.len(),
            part == v@.subrange(from as int, to as int),
            text::white_run(part) == (start - from) + text::white_run(part.skip(start - from)),
        decreases to - start,
    {
        proof {
            assert(part.skip(start - from)[0] == v@[start as int]);
            assert(part.skip(start - from).drop_first() =~= part.skip(start + 1 - from));
        }
        start = start + 1;
    }
    let ghost body = v@.subrange(start as int, to as int);
    proof {
        assert(part.skip(start - from) =~= body);
        if start < to {
            assert(body[0] == v@[start as int]);
        }
        assert(text::white_run(body) == 0);
    }
    let mut end: usize = to;
    while end > start && text::white(v[end - 1])
        invariant
            start <= end <= to <= v@.len(),
            body == v@.subrange(start as int, to as int),
            trimmed_end(body) == trimmed_end(v@.subrange(start as int, end as int)),
        decreases end,
    {
        proof {
            let s = v@.subrange(start as int, end as int);
            assert(s.last() == v@[end - 1]);
            assert(s.drop_last() =~= v@.subrange(start as int, end - 1));
        }
        end = end - 1;
    }
    proof {
        let s = v@.subrange(start as int, end as int);
        if end > start {
            assert(s.last() == v@[end - 1]);
        }
    }
    let mut out: Vec<char> = Vec::new();
    let mut i: usize = start;
    while i < end
        invariant
            start <= i <= end <= v@.len(),
            out@ == v@.subrange(start as int, i as int),
        decreases end - i,
    {
        out.push(v[i]);
        assert(v@.subrange(start as int, i + 1) =~= v@.subrange(start as int, i as int).push(
            v@[i as int],
        ));
        i = i + 1;
    }
    out
}

/// Reads the records of a text.
pub fn unframe(s: &str) -> (r: Vec<String>)
    ensures
        model::texts(r@) == unframed(s@),
{
    let v = text::chars_of(s);
    let mut out: Vec<String> = Vec::new();
    let mut at: usize = 0;
    proof {
        assert(v@.skip(0) =~= v@);
        assert(model::texts(out@) =~= Seq::empty());
        assert(Seq::<Seq<char>>::empty() + unframed(v@) =~= unframed(v@));
    }
    while at < v.len()
        invariant
            at <= v@.len(),
            v@ == s@,
            model::texts(out@) + unframed(v@.skip(at as int)) == unframed(s@),
        decreases v@.len() - at,
    {
        let ghost rest = v@.skip(at as int);
        let mut end: usize = at;
        while end < v.len() && v[end] != '\n'
            invariant
                at <= end <= v@.len(),
                forall|i: int| at <= i < end ==> #[trigger] v@[i] != '\n',
            decreases v@.len() - end,
        {
            end = end + 1;
        }
        proof {
            assert forall|i: int| 0 <= i < end - at implies #[trigger] rest[i] != '\n' by {
                assert(rest[i] == v@[at + i]);
            }
            if end < v@.len() {
                assert(rest[end - at] == v@[end as int]);
            }
            lemma_line_run_is(rest, end - at);
            assert(rest.take(end - at) =~= v@.subrange(at as int, end as int));
        }
        let line = trim_part(&v, at, end);
        let ghost before = model::texts(out@);
        let ghost later = if end < v@.len() {
            unframed(v@.skip(end + 1))
        } else {
            Seq::empty()
        };
        proof {
            if end < v@.len() {
                assert(rest.skip(end - at + 1) =~= v@.skip(end + 1));
            }
            assert(unframed(rest) == if line@.len() == 0 {
                later
            } else {
                seq![line@] + later
            });
        }
        if line.len() > 0 {
            let t = text::text_of(&line);
            out.push(t);
            proof {
                assert(model::texts(out@) =~= before.push(line@));
                assert(before.push(line@) + later =~= before + (seq![line@] + later));
            }
        }
        if end < v.len() {
            at = end + 1;
        } else {
            at = end;
            proof {
                assert(v@.skip(at as int) =~= Seq::<char>::empty());
                assert(unframed(v@.skip(at as int)) =~= Seq::empty());
            }
        }
    }
    proof {
        assert(v@.skip(at as int) =~= Seq::<char>::empty());
        assert(unframed(v@.skip(at as int)) =~= Seq::empty());
        assert(model::texts(out@) + Seq::<Seq<char>>::empty() =~= model::texts(out@));
    }
    out
}

/// A record that a line can hold: of one line, not empty, and without white space around it.
pub open spec fn is_record(r: Seq<char>) -> bool {
    &&& r.len() > 0
    &&& trimmed(r) == r
    &&& forall|i: int| 0 <= i < r.len() ==> #[trigger] r[i] != '\n'
}

proof fn lemma_frame_first(records: Seq<Seq<char>>)
    requires
        records.len() > 0,
    ensures
        framed(records) == records[0] + seq!['\n'] + framed(records.skip(1)),
    decreases records.len(),
{
    if records.len() == 1 {
        assert(records.drop_last() =~= Seq::empty());
        assert(records.skip(1) =~= Seq::empty());
        assert(framed(records) =~= records[0] + seq!['\n'] + framed(records.skip(1)));
    } else {
        lemma_frame_first(records.drop_last());
        assert(records.drop_last().skip(1) =~= records.skip(1).drop_last());
        assert(framed(records) =~= records[0] + seq!['\n'] + framed(records.skip(1)));
    }
}

/// What was written is read back: records that a line can hold come back as they were, in order.
pub proof fn law_written_records_are_read_back(records: Seq<Seq<char>>)
    requires
        forall|i: int| 0 <= i < records.len() ==> is_record(#[trigger] records[i]),
    ensures
        unframed(framed(records)) == records,
    decreases records.len(),
{
    if records.len() == 0 {
        assert(unframed(framed(records)) =~= records);
    } else {
        lemma_frame_first(records);
        let first = records[0];
        let rest = records.skip(1);
        let s = framed(records);
        let n = first.len() as int;
        assert(is_record(first));
        assert forall|i: int| 0 <= i < rest.len() implies is_record(#[trigger] rest[i]) by {
            assert(rest[i] == records[i + 1]);
        }
        law_written_records_are_read_back(rest);
        assert forall|i: int| 0 <= i < n implies #[trigger] s[i] != '\n' by {
            assert(s[i] == first[i]);
        }
        assert(s[n] == '\n');
        lemma_line_run_is(s, n);
        assert(s.take(n) =~= first);
        assert(s.skip(n + 1) =~= framed(rest));
        assert(records =~= seq![first] + rest);
    }
}

} // verus!
