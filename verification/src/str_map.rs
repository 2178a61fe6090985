//! Maps and sets keyed by text, walked in the order of their keys.
use vstd::prelude::*;
use vstd::string::*;

use crate::text;

verus! {

/// The keys of a list of entries rise strictly.
pub open spec fn keys_rise<T>(s: Seq<(Seq<char>, T)>) -> bool {
    forall|i: int, j: int| 0 <= i < j < s.len() ==> text::text_before(#[trigger] s[i].0, #[trigger] s[j].0)
}

/// The map that a list of entries spells out.
pub open spec fn entries_map<T>(s: Seq<(Seq<char>, T)>) -> Map<Seq<char>, T>
    decreases s.len(),
{
    if s.len() == 0 {
        Map::empty()
    } else {
        entries_map(s.drop_last()).insert(s.last().0, s.last().1)
    }
}

/// The entries of a map in the order of their keys.
pub open spec fn ordered<T>(m: Map<Seq<char>, T>) -> Seq<(Seq<char>, T)> {
    choose|s: Seq<(Seq<char>, T)>| keys_rise(s) && entries_map(s) == m
}

/// The map of a list with rising keys holds exactly the list's entries.
pub proof fn lemma_entries_map<T>(s: Seq<(Seq<char>, T)>)
    requires
        keys_rise(s),
    ensures
        forall|k: Seq<char>| #[trigger]
            entries_map(s).dom().contains(k) <==> exists|i: int|
                0 <= i < s.len() && #[trigger] s[i].0 == k,
        forall|i: int|
            0 <= i < s.len() ==> entries_map(s).dom().contains(#[trigger] s[i].0) && entries_map(
                s,
            )[s[i].0] == s[i].1,
        entries_map(s).dom().finite(),
        entries_map(s).dom().len() == s.len(),
    decreases s.len(),
{
    if s.len() > 0 {
        let front = s.drop_last();
        lemma_entries_map(front);
        let last = s.last();
        assert(!entries_map(front).dom().contains(last.0)) by {
            if entries_map(front).dom().contains(last.0) {
                let i = choose|i: int| 0 <= i < front.len() && #[trigger] front[i].0 == last.0;
                assert(s[i].0 == front[i].0);
                assert(text::text_before(s[i].0, s[s.len() - 1].0));
                text::lemma_text_before_irreflexive(last.0);
            }
        }
        assert forall|k: Seq<char>| #[trigger] entries_map(s).dom().contains(k) implies exists|
            i: int,
        |
            0 <= i < s.len() && #[trigger] s[i].0 == k by {
            if k == last.0 {
                assert(s[s.len() - 1].0 == k);
            } else {
                let i = choose|i: int| 0 <= i < front.len() && #[trigger] front[i].0 == k;
                assert(s[i].0 == k);
            }
        }
        assert forall|i: int| 0 <= i < s.len() implies entries_map(s).dom().contains(
            #[trigger] s[i].0,
        ) && entries_map(s)[s[i].0] == s[i].1 by {
            if i < s.len() - 1 {
                assert(front[i] == s[i]);
                assert(text::text_before(s[i].0, s[s.len() - 1].0));
                text::lemma_text_before_irreflexive(last.0);
            }
        }
        assert(entries_map(s).dom() =~= entries_map(front).dom().insert(last.0));
    }
}

/// Only one list with rising keys spells out a given map.
pub proof fn lemma_ordered_unique<T>(s: Seq<(Seq<char>, T)>, t: Seq<(Seq<char>, T)>)
    requires
        keys_rise(s),
        keys_rise(t),
        entries_map(s) == entries_map(t),
    ensures
        s == t,
    decreases s.len(),
{
    lemma_entries_map(s);
    lemma_entries_map(t);
    if s.len() == 0 {
        assert(s =~= t);
    } else {
        let x = s.last();
        let y = t.last();
        assert(s[s.len() - 1] == x);
        assert(t[t.len() - 1] == y);
        assert(entries_map(t).dom().contains(x.0));
        assert(entries_map(s).dom().contains(y.0));
        let j = choose|j: int| 0 <= j < t.len() && #[trigger] t[j].0 == x.0;
        let i = choose|i: int| 0 <= i < s.len() && #[trigger] s[i].0 == y.0;
        if x.0 != y.0 {
            assert(text::text_before(t[j].0, t[t.len() - 1].0));
            assert(text::text_before(s[i].0, s[s.len() - 1].0));
            text::lemma_text_before_transitive(x.0, y.0, x.0);
            text::lemma_text_before_irreflexive(x.0);
        }
        assert(x.1 == y.1);
        lemma_entries_map(s.drop_last());
        lemma_entries_map(t.drop_last());
        lemma_last_key_is_new(s);
        lemma_last_key_is_new(t);
        assert(entries_map(s.drop_last()) =~= entries_map(s).remove(x.0));
        assert(entries_map(t.drop_last()) =~= entries_map(t).remove(y.0));
        lemma_ordered_unique(s.drop_last(), t.drop_last());
        assert(s =~= s.drop_last().push(x));
        assert(t =~= t.drop_last().push(y));
    }
}

proof fn lemma_last_key_is_new<T>(s: Seq<(Seq<char>, T)>)
    requires
        keys_rise(s),
        s.len() > 0,
    ensures
        !entries_map(s.drop_last()).dom().contains(s.last().0),
{
    lemma_entries_map(s.drop_last());
    let front = s.drop_last();
    if entries_map(front).dom().contains(s.last().0) {
        let i = choose|i: int| 0 <= i < front.len() && #[trigger] front[i].0 == s.last().0;
        assert(s[i].0 == front[i].0);
        assert(text::text_before(s[i].0, s[s.len() - 1].0));
        text::lemma_text_before_irreflexive(s.last().0);
    }
}

/// A list with rising keys is the ordered list of its map.
pub proof fn lemma_is_ordered<T>(s: Seq<(Seq<char>, T)>)
    requires
        keys_rise(s),
    ensures
        ordered(entries_map(s)) == s,
{
    let m = entries_map(s);
    let t = choose|t: Seq<(Seq<char>, T)>| keys_rise(t) && entries_map(t) == m;
    lemma_ordered_unique(s, t);
}

/// The entries of every finite map can be put in order.
pub proof fn lemma_has_order<T>(m: Map<Seq<char>, T>)
    requires
        m.dom().finite(),
    ensures
        keys_rise(ordered(m)),
        entries_map(ordered(m)) == m,
    decreases m.dom().len(),
{
    if m.dom().len() == 0 {
        let s = Seq::<(Seq<char>, T)>::empty();
        assert(m.dom() =~= Set::empty());
        assert(m =~= entries_map(s));
        assert(keys_rise(s));
    } else {
        let k = m.dom().choose();
        let rest = m.remove(k);
        lemma_has_order(rest);
        let s = ordered(rest);
        let i = place(s, k);
        lemma_place(s, k);
        lemma_insert(s, i, k, m[k]);
        assert(rest.insert(k, m[k]) =~= m);
        assert(keys_rise(s.insert(i, (k, m[k]))) && entries_map(s.insert(i, (k, m[k]))) == m);
    }
}

/// Where a key belongs in a list with rising keys: behind all the keys before it.
pub open spec fn place<T>(s: Seq<(Seq<char>, T)>, k: Seq<char>) -> int
    decreases s.len(),
{
    if s.len() == 0 {
        0
    } else if text::text_before(s.last().0, k) {
        s.len() as int
    } else {
        place(s.drop_last(), k)
    }
}

proof fn lemma_place<T>(s: Seq<(Seq<char>, T)>, k: Seq<char>)
    requires
        keys_rise(s),
    ensures
        0 <= place(s, k) <= s.len(),
        forall|j: int| 0 <= j < place(s, k) ==> text::text_before((#[trigger] s[j]).0, k),
        place(s, k) < s.len() ==> !text::text_before(s[place(s, k)].0, k),
    decreases s.len(),
{
    if s.len() > 0 {
        if text::text_before(s.last().0, k) {
            assert forall|j: int| 0 <= j < s.len() implies text::text_before(
                (#[trigger] s[j]).0,
                k,
            ) by {
                if j < s.len() - 1 {
                    assert(text::text_before(s[j].0, s[s.len() - 1].0));
                    text::lemma_text_before_transitive(s[j].0, s.last().0, k);
                }
            }
        } else {
            let front = s.drop_last();
            lemma_place(front, k);
            assert forall|j: int| 0 <= j < place(s, k) implies text::text_before(
                (#[trigger] s[j]).0,
                k,
            ) by {
                assert(front[j] == s[j]);
            }
            if place(s, k) < front.len() {
                assert(front[place(s, k)] == s[place(s, k)]);
            }
        }
    }
}

/// A new key's entry goes to its place among the ordered entries.
pub proof fn lemma_ordered_insert_new<T>(m: Map<Seq<char>, T>, k: Seq<char>, v: T)
    requires
        m.dom().finite(),
        !m.dom().contains(k),
    ensures
        0 <= place(ordered(m), k) <= ordered(m).len(),
        ordered(m.insert(k, v)) == ordered(m).insert(place(ordered(m), k), (k, v)),
{
    lemma_has_order(m);
    let s = ordered(m);
    lemma_place(s, k);
    lemma_insert(s, place(s, k), k, v);
    lemma_is_ordered(s.insert(place(s, k), (k, v)));
}

/// A known key's entry keeps its place among the ordered entries.
pub proof fn lemma_ordered_insert_known<T>(m: Map<Seq<char>, T>, k: Seq<char>, v: T) -> (i: int)
    requires
        m.dom().finite(),
        m.dom().contains(k),
    ensures
        0 <= i < ordered(m).len(),
        ordered(m)[i] == (k, m[k]),
        ordered(m.insert(k, v)) == ordered(m).update(i, (k, v)),
        ordered(m.remove(k)) == ordered(m).remove(i),
{
    lemma_has_order(m);
    let s = ordered(m);
    lemma_entries_map(s);
    let i = choose|i: int| 0 <= i < s.len() && #[trigger] s[i].0 == k;
    lemma_update(s, i, v);
    lemma_is_ordered(s.update(i, (s[i].0, v)));
    lemma_remove(s, i);
    lemma_is_ordered(s.remove(i));
    i
}

/// Changing the values of a list of entries changes the values of its map.
pub proof fn lemma_entries_map_values<T>(s: Seq<(Seq<char>, T)>, f: spec_fn(T) -> T)
    ensures
        entries_map(s.map_values(|e: (Seq<char>, T)| (e.0, f(e.1)))) == entries_map(s).map_values(f),
    decreases s.len(),
{
    let g = |e: (Seq<char>, T)| (e.0, f(e.1));
    let t = s.map_values(g);
    if s.len() > 0 {
        lemma_entries_map_values(s.drop_last(), f);
        assert(t.drop_last() =~= s.drop_last().map_values(g));
        assert(t.last() == g(s.last()));
        assert(entries_map(t) =~= entries_map(s).map_values(f));
    } else {
        assert(entries_map(t) =~= entries_map(s).map_values(f));
    }
}

/// What a list of entries says.
spec fn rows_of<V: View>(entries: Seq<(String, V)>) -> Seq<(Seq<char>, V::V)> {
    entries.map_values(|e: (String, V)| (e.0@, e.1@))
}

/// A map keyed by text, kept in the order of its keys.
#[derive(Debug)]
pub struct StrMap<V: View> {
    entries: Vec<(String, V)>,
}

impl<V: View> View for StrMap<V> {
    type V = Map<Seq<char>, V::V>;

    closed spec fn view(&self) -> Map<Seq<char>, V::V> {
        entries_map(self.rows())
    }
}

impl<V: View> StrMap<V> {
    spec fn rows(self) -> Seq<(Seq<char>, V::V)> {
        rows_of(self.entries@)
    }

    #[verifier::type_invariant]
    spec fn keys_in_order(self) -> bool {
        keys_rise(self.rows())
    }

    /// A map with no entry.
    pub fn new() -> (r: Self)
        ensures
            r@ == Map::<Seq<char>, V::V>::empty(),
    {
        let r = StrMap { entries: Vec::new() };
        assert(r.rows() =~= Seq::empty());
        r
    }

    /// How many entries the map holds.
    pub fn len(&self) -> (r: usize)
        ensures
            r == self@.len(),
            r == ordered(self@).len(),
            self@.dom().finite(),
            keys_rise(ordered(self@)),
            entries_map(ordered(self@)) == self@,
    {
        proof {
            use_type_invariant(self);
            lemma_is_ordered(self.rows());
            lemma_entries_map(self.rows());
        }
        self.entries.len()
    }

    /// The key of the entry at this place in the order of the keys.
    pub fn key_at(&self, i: usize) -> (r: &String)
        requires
            i < ordered(self@).len(),
        ensures
            r@ == ordered(self@)[i as int].0,
    {
        proof {
            use_type_invariant(self);
            lemma_is_ordered(self.rows());
        }
        &self.entries[i].0
    }

    /// The value of the entry at this place in the order of the keys.
    pub fn value_at(&self, i: usize) -> (r: &V)
        requires
            i < ordered(self@).len(),
        ensures
            r@ == ordered(self@)[i as int].1,
            self@.dom().contains(ordered(self@)[i as int].0),
            self@[ordered(self@)[i as int].0] == ordered(self@)[i as int].1,
    {
        proof {
            use_type_invariant(self);
            lemma_is_ordered(self.rows());
            lemma_entries_map(self.rows());
            assert(self.rows()[i as int].1 == self.entries@[i as int].1@);
        }
        &self.entries[i].1
    }

    fn find(&self, key: &str) -> (r: Option<usize>)
        ensures
            r matches Some(i) ==> i < self.entries@.len() && self.rows()[i as int].0 == key@,
            r is None ==> !self@.dom().contains(key@),
    {
        proof {
            use_type_invariant(self);
            lemma_entries_map(self.rows());
        }
        let mut i: usize = 0;
        while i < self.entries.len()
            invariant
                i <= self.entries@.len(),
                forall|j: int| 0 <= j < i ==> (#[trigger] self.rows()[j]).0 != key@,
            decreases self.entries@.len() - i,
        {
            if text::same_text(self.entries[i].0.as_str(), key) {
                return Some(i);
            }
            i = i + 1;
        }
        None
    }

    /// Whether the map holds an entry under this key.
    pub fn contains_key(&self, key: &str) -> (r: bool)
        ensures
            r == self@.dom().contains(key@),
    {
        proof {
            use_type_invariant(self);
            lemma_entries_map(self.rows());
        }
        match self.find(key) {
            Some(_) => true,
            None => false,
        }
    }

    /// The value under this key.
    pub fn get(&self, key: &str) -> (r: Option<&V>)
        ensures
            r is Some <==> self@.dom().contains(key@),
            r matches Some(v) ==> v@ == self@[key@],
    {
        proof {
            use_type_invariant(self);
            lemma_entries_map(self.rows());
        }
        match self.find(key) {
            Some(i) => {
                assert(self.rows()[i as int].1 == self.entries@[i as int].1@);
                Some(&self.entries[i].1)
            },
            None => None,
        }
    }

    /// Puts a value under a key, in the place of what stood there.
    pub fn insert(&mut self, key: String, value: V)
        ensures
            final(self)@ == old(self)@.insert(key@, value@),
    {
        proof {
            use_type_invariant(&*self);
        }
        let ghost before = self.rows();
        let ghost k = key@;
        let ghost v = value@;
        let known = self.find(key.as_str());
        let mut entries: Vec<(String, V)> = Vec::new();
        std::mem::swap(&mut entries, &mut self.entries);
        match known {
            Some(i) => {
                entries.set(i, (key, value));
                proof {
                    assert(rows_of(entries@) =~= before.update(i as int, (k, v)));
                    lemma_update(before, i as int, v);
                }
            },
            None => {
                let mut i: usize = 0;
                while i < entries.len() && text::is_before(entries[i].0.as_str(), key.as_str())
                    invariant
                        i <= entries@.len(),
                        key@ == k,
                        rows_of(entries@) == before,
                        forall|j: int| 0 <= j < i ==> text::text_before((#[trigger] before[j]).0, k),
                    ensures
                        i <= entries@.len(),
                        key@ == k,
                        rows_of(entries@) == before,
                        forall|j: int| 0 <= j < i ==> text::text_before((#[trigger] before[j]).0, k),
                        i < entries@.len() ==> !text::text_before(before[i as int].0, k),
                    decreases entries@.len() - i,
                {
                    assert(rows_of(entries@)[i as int].0 == entries@[i as int].0@);
                    i = i + 1;
                }
                entries.insert(i, (key, value));
                proof {
                    assert(rows_of(entries@) =~= before.insert(i as int, (k, v)));
                    lemma_insert(before, i as int, k, v);
                }
            },
        }
        self.entries = entries;
    }

    /// Takes the entry under a key out of the map.
    pub fn remove(&mut self, key: &str) -> (r: Option<V>)
        ensures
            final(self)@ == old(self)@.remove(key@),
            r is Some <==> old(self)@.dom().contains(key@),
            r matches Some(v) ==> v@ == old(self)@[key@],
    {
        proof {
            use_type_invariant(&*self);
        }
        let ghost before = self.rows();
        proof {
            lemma_entries_map(before);
        }
        match self.find(key) {
            Some(i) => {
                let mut entries: Vec<(String, V)> = Vec::new();
                std::mem::swap(&mut entries, &mut self.entries);
                let (_, v) = entries.remove(i);
                proof {
                    assert(rows_of(entries@) =~= before.remove(i as int));
                    lemma_remove(before, i as int);
                }
                self.entries = entries;
                Some(v)
            },
            None => {
                assert(self@ =~= old(self)@.remove(key@));
                None
            },
        }
    }

    /// Puts a value in the place of the one at this place in the order of the keys.
    pub fn set_value_at(&mut self, i: usize, value: V)
        requires
            i < ordered(old(self)@).len(),
        ensures
            final(self)@ == old(self)@.insert(ordered(old(self)@)[i as int].0, value@),
            ordered(final(self)@) == ordered(old(self)@).update(
                i as int,
                (ordered(old(self)@)[i as int].0, value@),
            ),
    {
        proof {
            use_type_invariant(&*self);
        }
        let ghost before = self.rows();
        let ghost v = value@;
        proof {
            lemma_is_ordered(before);
        }
        let mut entries: Vec<(String, V)> = Vec::new();
        std::mem::swap(&mut entries, &mut self.entries);
        let key = entries[i].0.clone();
        entries.set(i, (key, value));
        proof {
            assert(rows_of(entries@) =~= before.update(i as int, (before[i as int].0, v)));
            lemma_update(before, i as int, v);
            lemma_is_ordered(rows_of(entries@));
        }
        self.entries = entries;
    }
}

/// A set of texts.
#[derive(Debug)]
pub struct StrSet {
    keys: StrMap<bool>,
}

impl View for StrSet {
    type V = Set<Seq<char>>;

    closed spec fn view(&self) -> Set<Seq<char>> {
        self.keys@.dom()
    }
}

impl StrSet {
    /// A set with no element.
    pub fn new() -> (r: Self)
        ensures
            r@ == Set::<Seq<char>>::empty(),
    {
        let r = StrSet { keys: StrMap::new() };
        assert(r@ =~= Set::empty());
        r
    }

    /// How many elements the set holds.
    pub fn len(&self) -> (r: usize)
        ensures
            r == self@.len(),
            self@.finite(),
    {
        self.keys.len()
    }

    /// Whether the set holds this text.
    pub fn contains(&self, key: &str) -> (r: bool)
        ensures
            r == self@.contains(key@),
    {
        self.keys.contains_key(key)
    }

    /// Puts a text into the set; whether it is new there.
    pub fn insert(&mut self, key: String) -> (r: bool)
        ensures
            final(self)@ == old(self)@.insert(key@),
            r == !old(self)@.contains(key@),
    {
        let known = self.keys.contains_key(key.as_str());
        self.keys.insert(key, true);
        assert(self@ =~= old(self)@.insert(key@));
        !known
    }

    /// Takes a text out of the set.
    pub fn remove(&mut self, key: &str)
        ensures
            final(self)@ == old(self)@.remove(key@),
    {
        let _ = self.keys.remove(key);
        assert(self@ =~= old(self)@.remove(key@));
    }
}

proof fn lemma_update<T>(s: Seq<(Seq<char>, T)>, i: int, v: T)
    requires
        keys_rise(s),
        0 <= i < s.len(),
    ensures
        keys_rise(s.update(i, (s[i].0, v))),
        entries_map(s.update(i, (s[i].0, v))) == entries_map(s).insert(s[i].0, v),
{
    let t = s.update(i, (s[i].0, v));
    assert forall|a: int, b: int| 0 <= a < b < t.len() implies text::text_before(
        #[trigger] t[a].0,
        #[trigger] t[b].0,
    ) by {
        assert(t[a].0 == s[a].0);
        assert(t[b].0 == s[b].0);
    }
    lemma_entries_map(s);
    lemma_entries_map(t);
    assert forall|k: Seq<char>| #[trigger]
        entries_map(t).dom().contains(k) == entries_map(s).dom().contains(k) by {
        if entries_map(t).dom().contains(k) {
            let a = choose|a: int| 0 <= a < t.len() && #[trigger] t[a].0 == k;
            assert(s[a].0 == k);
        }
        if entries_map(s).dom().contains(k) {
            let a = choose|a: int| 0 <= a < s.len() && #[trigger] s[a].0 == k;
            assert(t[a].0 == k);
        }
    }
    assert(entries_map(s).dom().contains(s[i].0));
    assert forall|k: Seq<char>| entries_map(t).dom().contains(k) implies #[trigger] entries_map(
        t,
    )[k] == entries_map(s).insert(s[i].0, v)[k] by {
        let a = choose|a: int| 0 <= a < t.len() && #[trigger] t[a].0 == k;
        assert(s[a].0 == k);
        if a < i {
            assert(text::text_before(s[a].0, s[i].0));
            text::lemma_text_before_irreflexive(k);
        } else if i < a {
            assert(text::text_before(s[i].0, s[a].0));
            text::lemma_text_before_irreflexive(k);
        }
    }
    assert(entries_map(t) =~= entries_map(s).insert(s[i].0, v));
}

proof fn lemma_insert<T>(s: Seq<(Seq<char>, T)>, i: int, k: Seq<char>, v: T)
    requires
        keys_rise(s),
        0 <= i <= s.len(),
        !entries_map(s).dom().contains(k),
        forall|j: int| 0 <= j < i ==> text::text_before((#[trigger] s[j]).0, k),
        i < s.len() ==> !text::text_before(s[i].0, k),
    ensures
        keys_rise(s.insert(i, (k, v))),
        entries_map(s.insert(i, (k, v))) == entries_map(s).insert(k, v),
{
    let t = s.insert(i, (k, v));
    lemma_entries_map(s);
    assert forall|j: int| i <= j < s.len() implies text::text_before(k, (#[trigger] s[j]).0) by {
        assert(entries_map(s).dom().contains(s[i].0));
        text::lemma_text_before_total(s[i].0, k);
        if i < j {
            assert(text::text_before(s[i].0, s[j].0));
            text::lemma_text_before_transitive(k, s[i].0, s[j].0);
        }
    }
    assert forall|a: int, b: int| 0 <= a < b < t.len() implies text::text_before(
        #[trigger] t[a].0,
        #[trigger] t[b].0,
    ) by {
        if a < i {
            assert(t[a] == s[a]);
        } else if a > i {
            assert(t[a] == s[a - 1]);
        }
        if b < i {
            assert(t[b] == s[b]);
        } else if b > i {
            assert(t[b] == s[b - 1]);
        }
    }
    lemma_entries_map(t);
    assert forall|x: Seq<char>| #[trigger]
        entries_map(t).dom().contains(x) == (x == k || entries_map(s).dom().contains(x)) by {
        if entries_map(t).dom().contains(x) {
            let a = choose|a: int| 0 <= a < t.len() && #[trigger] t[a].0 == x;
            if a < i {
                assert(s[a].0 == x);
            } else if a > i {
                assert(s[a - 1].0 == x);
            }
        }
        if entries_map(s).dom().contains(x) {
            let a = choose|a: int| 0 <= a < s.len() && #[trigger] s[a].0 == x;
            if a < i {
                assert(t[a].0 == x);
            } else {
                assert(t[a + 1].0 == x);
            }
        }
        if x == k {
            assert(t[i].0 == x);
        }
    }
    assert forall|x: Seq<char>| entries_map(t).dom().contains(x) implies #[trigger] entries_map(
        t,
    )[x] == entries_map(s).insert(k, v)[x] by {
        let a = choose|a: int| 0 <= a < t.len() && #[trigger] t[a].0 == x;
        if a < i {
            assert(s[a].0 == x && s[a] == t[a]);
        } else if a > i {
            assert(s[a - 1].0 == x && s[a - 1] == t[a]);
        }
    }
    assert(entries_map(t) =~= entries_map(s).insert(k, v));
}

proof fn lemma_remove<T>(s: Seq<(Seq<char>, T)>, i: int)
    requires
        keys_rise(s),
        0 <= i < s.len(),
    ensures
        keys_rise(s.remove(i)),
        entries_map(s.remove(i)) == entries_map(s).remove(s[i].0),
{
    let t = s.remove(i);
    assert forall|a: int, b: int| 0 <= a < b < t.len() implies text::text_before(
        #[trigger] t[a].0,
        #[trigger] t[b].0,
    ) by {
        assert(t[a] == if a < i {
            s[a]
        } else {
            s[a + 1]
        });
        assert(t[b] == if b < i {
            s[b]
        } else {
            s[b + 1]
        });
    }
    lemma_entries_map(s);
    lemma_entries_map(t);
    assert forall|x: Seq<char>| #[trigger]
        entries_map(t).dom().contains(x) == (x != s[i].0 && entries_map(s).dom().contains(x)) by {
        if entries_map(t).dom().contains(x) {
            let a = choose|a: int| 0 <= a < t.len() && #[trigger] t[a].0 == x;
            let b = if a < i {
                a
            } else {
                a + 1
            };
            assert(s[b].0 == x);
            if b < i {
                assert(text::text_before(s[b].0, s[i].0));
            } else {
                assert(text::text_before(s[i].0, s[b].0));
            }
            text::lemma_text_before_irreflexive(x);
        }
        if x != s[i].0 && entries_map(s).dom().contains(x) {
            let a = choose|a: int| 0 <= a < s.len() && #[trigger] s[a].0 == x;
            if a < i {
                assert(t[a].0 == x);
            } else {
                assert(t[a - 1].0 == x);
            }
        }
    }
    assert forall|x: Seq<char>| entries_map(t).dom().contains(x) implies #[trigger] entries_map(
        t,
    )[x] == entries_map(s).remove(s[i].0)[x] by {
        let a = choose|a: int| 0 <= a < t.len() && #[trigger] t[a].0 == x;
        let b = if a < i {
            a
        } else {
            a + 1
        };
        assert(s[b].0 == x && s[b] == t[a]);
    }
    assert(entries_map(t) =~= entries_map(s).remove(s[i].0));
}

} // verus!
