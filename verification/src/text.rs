//! Text: comparing, joining and writing integers.
use vstd::prelude::*;
use vstd::string::*;

verus! {

/// One text comes before another: it differs first in a smaller character, or it is a proper
/// beginning of the other.
pub open spec fn text_before(a: Seq<char>, b: Seq<char>) -> bool
    decreases a.len(),
{
    if b.len() == 0 {
        false
    } else if a.len() == 0 {
        true
    } else if a[0] != b[0] {
        (a[0] as int) < (b[0] as int)
    } else {
        text_before(a.drop_first(), b.drop_first())
    }
}

/// No text comes before itself.
pub proof fn lemma_text_before_irreflexive(a: Seq<char>)
    ensures
        !text_before(a, a),
    decreases a.len(),
{
    if a.len() > 0 {
        lemma_text_before_irreflexive(a.drop_first());
    }
}

/// The order of texts is transitive.
pub proof fn lemma_text_before_transitive(a: Seq<char>, b: Seq<char>, c: Seq<char>)
    requires
        text_before(a, b),
        text_before(b, c),
    ensures
        text_before(a, c),
    decreases a.len(),
{
    if a.len() > 0 && b.len() > 0 && c.len() > 0 && a[0] == b[0] && b[0] == c[0] {
        lemma_text_before_transitive(a.drop_first(), b.drop_first(), c.drop_first());
    }
}

/// Of two different texts one comes before the other.
pub proof fn lemma_text_before_total(a: Seq<char>, b: Seq<char>)
    requires
        a != b,
    ensures
        text_before(a, b) || text_before(b, a),
    decreases a.len(),
{
    if a.len() == 0 {
        if b.len() == 0 {
            assert(a =~= b);
        }
    } else if b.len() > 0 && a[0] == b[0] {
        if a.drop_first() == b.drop_first() {
            assert(a =~= seq![a[0]] + a.drop_first());
            assert(b =~= seq![b[0]] + b.drop_first());
        }
        lemma_text_before_total(a.drop_first(), b.drop_first());
    }
}

/// Whether two texts are the same.
pub fn same_text(a: &str, b: &str) -> (r: bool)
    ensures
        r == (a@ == b@),
{
    a.to_owned() == b.to_owned()
}

/// Whether one text comes before another.
pub fn is_before(a: &str, b: &str) -> (r: bool)
    ensures
        r == text_before(a@, b@),
{
    let a_len: usize = a.unicode_len();
    let b_len: usize = b.unicode_len();
    let mut i: usize = 0;
    proof {
        assert(a@.skip(0) =~= a@);
        assert(b@.skip(0) =~= b@);
    }
    while i < a_len && i < b_len
        invariant
            a_len == a@.len(),
            b_len == b@.len(),
            i <= a_len,
            i <= b_len,
            text_before(a@, b@) == text_before(a@.skip(i as int), b@.skip(i as int)),
        decreases a_len - i,
    {
        let x: char = a.get_char(i);
        let y: char = b.get_char(i);
        proof {
            assert(a@.skip(i as int).drop_first() =~= a@.skip(i + 1));
            assert(b@.skip(i as int).drop_first() =~= b@.skip(i + 1));
        }
        if x != y {
            return (x as u32) < (y as u32);
        }
        i = i + 1;
    }
    i < b_len
}

/// Two texts, one behind the other.
pub fn join(a: &str, b: &str) -> (r: String)
    ensures
        r@ == a@ + b@,
{
    let mut out = a.to_owned();
    out.append(b);
    out
}

/// The digit of a number below ten.
pub open spec fn digit(n: nat) -> char {
    if n == 0 {
        '0'
    } else if n == 1 {
        '1'
    } else if n == 2 {
        '2'
    } else if n == 3 {
        '3'
    } else if n == 4 {
        '4'
    } else if n == 5 {
        '5'
    } else if n == 6 {
        '6'
    } else if n == 7 {
        '7'
    } else if n == 8 {
        '8'
    } else {
        '9'
    }
}

/// A number's decimal digits.
pub open spec fn nat_text(n: nat) -> Seq<char>
    decreases n,
{
    if n < 10 {
        seq![digit(n)]
    } else {
        nat_text(n / 10).push(digit(n % 10))
    }
}

/// An integer's decimal digits, with a minus sign in front where it is negative.
pub open spec fn int_text(n: int) -> Seq<char> {
    if n < 0 {
        seq!['-'] + nat_text((-n) as nat)
    } else {
        nat_text(n as nat)
    }
}

/// The digits of a number are digits.
pub proof fn lemma_nat_text_digits(n: nat)
    ensures
        nat_text(n).len() > 0,
        forall|i: int|
            0 <= i < nat_text(n).len() ==> '0' as int <= (#[trigger] nat_text(n)[i]) as int
                <= '9' as int,
    decreases n,
{
    if n >= 10 {
        lemma_nat_text_digits(n / 10);
    }
}

/// Different numbers have different digits.
pub proof fn lemma_nat_text_injective(a: nat, b: nat)
    requires
        nat_text(a) == nat_text(b),
    ensures
        a == b,
    decreases a,
{
    lemma_nat_text_digits(a / 10);
    lemma_nat_text_digits(b / 10);
    assert(nat_text(a).last() == digit(a % 10));
    assert(nat_text(b).last() == digit(b % 10));
    if a >= 10 && b >= 10 {
        assert(nat_text(a).drop_last() =~= nat_text(a / 10));
        assert(nat_text(b).drop_last() =~= nat_text(b / 10));
        lemma_nat_text_injective(a / 10, b / 10);
    } else if a >= 10 {
        assert(nat_text(a).len() == nat_text(a / 10).len() + 1);
    } else if b >= 10 {
        assert(nat_text(b).len() == nat_text(b / 10).len() + 1);
    }
}

/// Different integers have different texts.
pub proof fn lemma_int_text_injective(a: int, b: int)
    requires
        int_text(a) == int_text(b),
    ensures
        a == b,
{
    let x = if a < 0 {
        -a
    } else {
        a
    };
    let y = if b < 0 {
        -b
    } else {
        b
    };
    lemma_nat_text_digits(x as nat);
    lemma_nat_text_digits(y as nat);
    if a < 0 {
        assert(int_text(a)[0] == '-');
        assert(int_text(a).skip(1) =~= nat_text(x as nat));
    } else {
        assert(int_text(a)[0] == nat_text(x as nat)[0]);
    }
    if b < 0 {
        assert(int_text(b)[0] == '-');
        assert(int_text(b).skip(1) =~= nat_text(y as nat));
    } else {
        assert(int_text(b)[0] == nat_text(y as nat)[0]);
    }
    lemma_nat_text_injective(x as nat, y as nat);
}

fn digit_text(n: u64) -> (r: &'static str)
    requires
        n < 10,
    ensures
        r@ == seq![digit(n as nat)],
{
    proof {
        reveal_strlit("0");
        reveal_strlit("1");
        reveal_strlit("2");
        reveal_strlit("3");
        reveal_strlit("4");
        reveal_strlit("5");
        reveal_strlit("6");
        reveal_strlit("7");
        reveal_strlit("8");
        reveal_strlit("9");
    }
    let r = if n == 0 {
        "0"
    } else if n == 1 {
        "1"
    } else if n == 2 {
        "2"
    } else if n == 3 {
        "3"
    } else if n == 4 {
        "4"
    } else if n == 5 {
        "5"
    } else if n == 6 {
        "6"
    } else if n == 7 {
        "7"
    } else if n == 8 {
        "8"
    } else {
        "9"
    };
    assert(r@ =~= seq![digit(n as nat)]);
    r
}

/// A number's decimal digits.
pub fn write_u64(n: u64) -> (r: String)
    ensures
        r@ == nat_text(n as nat),
    decreases n,
{
    if n < 10 {
        digit_text(n).to_owned()
    } else {
        let mut out = write_u64(n / 10);
        out.append(digit_text(n % 10));
        assert(out@ =~= nat_text(n as nat));
        out
    }
}

/// An integer's decimal digits, with a minus sign in front where it is negative.
pub fn write_i64(n: i64) -> (r: String)
    ensures
        r@ == int_text(n as int),
{
    if n < 0 {
        let magnitude: u64 = (-(n as i128)) as u64;
        let mut out = "-".to_owned();
        out.append(write_u64(magnitude).as_str());
        proof {
            reveal_strlit("-");
            assert("-"@ =~= seq!['-']);
        }
        out
    } else {
        write_u64(n as u64)
    }
}

/// `String::push` appends a character to the end of a string.
pub assume_specification[ String::push ](s: &mut String, c: char)
    ensures
        final(s)@ == old(s)@.push(c),
;

/// The characters of a text.
pub fn chars_of(s: &str) -> (r: Vec<char>)
    ensures
        r@ == s@,
{
    let mut out: Vec<char> = Vec::new();
    for c in it: s.chars()
        invariant
            it.seq() == s@,
            out@ == s@.take(it.index()),
    {
        out.push(c);
        assert(out@ =~= s@.take(it.index() + 1));
    }
    assert(s@.take(s@.len() as int) =~= s@);
    out
}

/// The text of a list of characters.
pub fn text_of(v: &Vec<char>) -> (r: String)
    ensures
        r@ == v@,
{
    let mut out = String::new();
    let mut i: usize = 0;
    while i < v.len()
        invariant
            i <= v@.len(),
            out@ == v@.take(i as int),
        decreases v@.len() - i,
    {
        out.push(v[i]);
        i = i + 1;
        assert(out@ =~= v@.take(i as int));
    }
    assert(v@.take(i as int) =~= v@);
    out
}

/// A text occurs in another one at a place.
pub open spec fn occurs_at(s: Seq<char>, part: Seq<char>, at: int) -> bool {
    0 <= at && at + part.len() <= s.len() && s.subrange(at, at + part.len()) == part
}

/// A text begins with another one.
pub open spec fn starts(s: Seq<char>, part: Seq<char>) -> bool {
    occurs_at(s, part, 0)
}

/// A text occurs in another one.
pub open spec fn occurs(s: Seq<char>, part: Seq<char>) -> bool {
    exists|at: int| occurs_at(s, part, at)
}

fn matches_at(s: &Vec<char>, part: &Vec<char>, at: usize) -> (r: bool)
    requires
        at <= s@.len(),
    ensures
        r == occurs_at(s@, part@, at as int),
{
    let n: usize = s.len();
    if part.len() > n - at {
        return false;
    }
    let mut i: usize = 0;
    while i < part.len()
        invariant
            n == s@.len(),
            i <= part@.len(),
            at + part@.len() <= n,
            forall|j: int| 0 <= j < i ==> s@[at + j] == part@[j],
        decreases part@.len() - i,
    {
        if s[at + i] != part[i] {
            assert(s@.subrange(at as int, at + part@.len())[i as int] != part@[i as int]);
            return false;
        }
        i = i + 1;
    }
    assert(s@.subrange(at as int, at + part@.len()) =~= part@);
    true
}

/// Whether a text begins with another one.
pub fn starts_with(s: &str, part: &str) -> (r: bool)
    ensures
        r == starts(s@, part@),
{
    matches_at(&chars_of(s), &chars_of(part), 0)
}

/// Whether a text occurs in another one.
pub fn contains(s: &str, part: &str) -> (r: bool)
    ensures
        r == occurs(s@, part@),
{
    let all = chars_of(s);
    let p = chars_of(part);
    let mut i: usize = 0;
    while i <= all.len()
        invariant
            all@ == s@,
            p@ == part@,
            i <= all@.len() + 1,
            forall|j: int| 0 <= j < i ==> !occurs_at(s@, part@, j),
        decreases all@.len() + 1 - i,
    {
        if matches_at(&all, &p, i) {
            return true;
        }
        if i == all.len() {
            return false;
        }
        i = i + 1;
    }
    false
}

/// The character has Unicode's `White_Space` property.
pub open spec fn is_white(c: char) -> bool {
    ||| '\u{9}' <= c <= '\u{d}'
    ||| c == ' '
    ||| c == '\u{85}'
    ||| c == '\u{a0}'
    ||| c == '\u{1680}'
    ||| '\u{2000}' <= c <= '\u{200a}'
    ||| c == '\u{2028}'
    ||| c == '\u{2029}'
    ||| c == '\u{202f}'
    ||| c == '\u{205f}'
    ||| c == '\u{3000}'
}

/// Calls `char::is_whitespace`, which tells whether a character has Unicode's `White_Space` property:
/// it claims that these are the characters that [`is_white`] lists.
#[verifier::external_body]
pub(crate) fn white(c: char) -> (r: bool)
    ensures
        r == is_white(c),
{
    c.is_whitespace()
}

/// The text in lower case.
pub uninterp spec fn lowered(s: Seq<char>) -> Seq<char>;

/// Every character of the text is an ASCII one.
pub open spec fn only_ascii(s: Seq<char>) -> bool {
    forall|i: int| 0 <= i < s.len() ==> #[trigger] s[i] <= '\u{7f}'
}

/// An ASCII character in lower case.
pub open spec fn ascii_lower(c: char) -> char {
    if 'A' <= c <= 'Z' {
        (c as int + 32) as char
    } else {
        c
    }
}

/// The text in lower case, letter by letter where it is an ASCII one.
pub open spec fn in_lower_case(s: Seq<char>) -> Seq<char> {
    if only_ascii(s) {
        s.map_values(|c: char| ascii_lower(c))
    } else {
        lowered(s)
    }
}

/// Calls `str::to_lowercase`, which gives the lower-case equivalent of a text. It claims that the
/// result depends on the text alone, and that of an ASCII text each capital letter becomes the small
/// one and every other character stays.
#[verifier::external_body]
fn lower(s: &String) -> (r: String)
    ensures
        r@ == lowered(s@),
        only_ascii(s@) ==> r@ == s@.map_values(|c: char| ascii_lower(c)),
{
    s.to_lowercase()
}

/// How many characters of white space a text begins with.
pub open spec fn white_run(s: Seq<char>) -> nat
    decreases s.len(),
{
    if s.len() > 0 && is_white(s[0]) {
        1 + white_run(s.drop_first())
    } else {
        0
    }
}

/// How many characters other than white space a text begins with.
pub open spec fn word_run(s: Seq<char>) -> nat
    decreases s.len(),
{
    if s.len() > 0 && !is_white(s[0]) {
        1 + word_run(s.drop_first())
    } else {
        0
    }
}

/// The first word of a text.
pub open spec fn first_word(s: Seq<char>) -> Seq<char> {
    let t = s.skip(white_run(s) as int);
    t.take(word_run(t) as int)
}

/// What is behind the first word of a text.
pub open spec fn after_word(s: Seq<char>) -> Seq<char> {
    let t = s.skip(white_run(s) as int);
    t.skip(word_run(t) as int)
}

/// The first two words of a text, joined by `_`.
pub open spec fn two_words(s: Seq<char>) -> Seq<char> {
    let a = first_word(s);
    let b = first_word(after_word(s));
    if b.len() == 0 {
        a
    } else {
        a + seq!['_'] + b
    }
}

/// The end of the run of white space, or of other characters, that begins at a place.
fn run_end(v: &Vec<char>, from: usize, want_white: bool) -> (r: usize)
    requires
        from <= v@.len(),
    ensures
        from <= r <= v@.len(),
        want_white ==> r == from + white_run(v@.skip(from as int)),
        !want_white ==> r == from + word_run(v@.skip(from as int)),
{
    let ghost s = v@.skip(from as int);
    let mut i: usize = from;
    while i < v.len()
        invariant
            from <= i <= v@.len(),
            s == v@.skip(from as int),
            want_white ==> white_run(s) == (i - from) + white_run(v@.skip(i as int)),
            !want_white ==> word_run(s) == (i - from) + word_run(v@.skip(i as int)),
        decreases v@.len() - i,
    {
        proof {
            assert(v@.skip(i as int).drop_first() =~= v@.skip(i + 1));
            assert(v@.skip(i as int)[0] == v@[i as int]);
        }
        if white(v[i]) != want_white {
            return i;
        }
        i = i + 1;
    }
    i
}

fn part_of(v: &Vec<char>, from: usize, to: usize) -> (r: Vec<char>)
    requires
        from <= to <= v@.len(),
    ensures
        r@ == v@.subrange(from as int, to as int),
{
    let mut out: Vec<char> = Vec::new();
    let mut i: usize = from;
    while i < to
        invariant
            from <= i <= to <= v@.len(),
            out@ == v@.subrange(from as int, i as int),
        decreases to - i,
    {
        out.push(v[i]);
        i = i + 1;
        assert(out@ =~= v@.subrange(from as int, i as int));
    }
    out
}

/// The first two words of a text, joined by `_`, in lower case.
pub fn two_words_lowered(s: &str) -> (r: String)
    ensures
        r@ == in_lower_case(two_words(s@)),
{
    let v = chars_of(s);
    let a: usize = run_end(&v, 0, true);
    let b: usize = run_end(&v, a, false);
    let c: usize = run_end(&v, b, true);
    let d: usize = run_end(&v, c, false);
    let first = part_of(&v, a, b);
    let second = part_of(&v, c, d);
    proof {
        assert(s@.skip(0) =~= s@);
        let t = s@.skip(a as int);
        assert(first@ =~= first_word(s@));
        assert(after_word(s@) =~= s@.skip(b as int));
        assert(s@.skip(b as int).skip(white_run(s@.skip(b as int)) as int) =~= s@.skip(c as int));
        assert(second@ =~= first_word(after_word(s@)));
    }
    let mut out = text_of(&first);
    if second.len() > 0 {
        out.push('_');
        out.append(text_of(&second).as_str());
        assert(out@ =~= two_words(s@));
    }
    lower(&out)
}

/// The beginning of a text, of at most `n` characters.
pub open spec fn beginning(s: Seq<char>, n: usize) -> Seq<char> {
    if s.len() <= n {
        s
    } else {
        s.take(n as int)
    }
}

/// Writes the beginning of a text, of at most `n` characters.
pub fn write_beginning(s: &str, n: usize) -> (r: String)
    ensures
        r@ == beginning(s@, n),
{
    let v = chars_of(s);
    let end: usize = if v.len() <= n {
        v.len()
    } else {
        n
    };
    let part = part_of(&v, 0, end);
    assert(part@ =~= beginning(s@, n));
    text_of(&part)
}

/// The texts of a list, with a separator between each two.
pub open spec fn joined(parts: Seq<Seq<char>>, sep: Seq<char>) -> Seq<char>
    decreases parts.len(),
{
    if parts.len() == 0 {
        Seq::empty()
    } else if parts.len() == 1 {
        parts[0]
    } else {
        joined(parts.drop_last(), sep) + sep + parts.last()
    }
}

/// Writes the texts of a list, with a separator between each two.
pub fn join_all(parts: &Vec<String>, sep: &str) -> (r: String)
    ensures
        r@ == joined(parts@.map_values(|t: String| t@), sep@),
{
    let ghost all = parts@.map_values(|t: String| t@);
    let mut out = String::new();
    let mut i: usize = 0;
    assert(all.take(0) =~= Seq::<Seq<char>>::empty());
    while i < parts.len()
        invariant
            i <= parts@.len(),
            all == parts@.map_values(|t: String| t@),
            out@ == joined(all.take(i as int), sep@),
        decreases parts@.len() - i,
    {
        proof {
            assert(all.take(i + 1).drop_last() =~= all.take(i as int));
            assert(all.take(i + 1).last() == parts@[i as int]@);
        }
        if i > 0 {
            out.append(sep);
        } else {
            assert(out@ =~= Seq::<char>::empty());
            assert(out@ + parts@[0]@ =~= parts@[0]@);
        }
        out.append(parts[i].as_str());
        i = i + 1;
    }
    assert(all.take(i as int) =~= all);
    out
}

/// Whether a list holds a text.
pub open spec fn listed(list: Seq<Seq<char>>, t: Seq<char>) -> bool {
    list.contains(t)
}

/// Whether a list holds a text.
pub fn is_listed(list: &Vec<String>, t: &str) -> (r: bool)
    ensures
        r == listed(list@.map_values(|t: String| t@), t@),
{
    let ghost all = list@.map_values(|t: String| t@);
    let mut i: usize = 0;
    while i < list.len()
        invariant
            i <= list@.len(),
            all == list@.map_values(|t: String| t@),
            forall|j: int| 0 <= j < i ==> #[trigger] all[j] != t@,
        decreases list@.len() - i,
    {
        if same_text(list[i].as_str(), t) {
            assert(all[i as int] == t@);
            return true;
        }
        i = i + 1;
    }
    false
}

} // verus!
