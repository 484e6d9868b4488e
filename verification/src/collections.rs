//! Ordered sets of strings and maps keyed by strings.
//!
//! `StringSet` keeps its strings in ascending order with each string once,
//! the order in which `BTreeSet<String>` walks them; `StringMap` keeps each
//! key once.
use vstd::prelude::*;

use crate::text::{chars_of, copy_string};

verus! {

// ---------------------------------------------------------------------
// Order on strings
// ---------------------------------------------------------------------

/// Lexicographic order of character sequences by code point (the order of
/// `str`, which compares UTF-8 bytes).
pub open spec fn seq_lt(a: Seq<char>, b: Seq<char>) -> bool
    decreases a.len(),
{
    if a.len() == 0 {
        b.len() > 0
    } else if b.len() == 0 {
        false
    } else if a[0] != b[0] {
        (a[0] as int) < (b[0] as int)
    } else {
        seq_lt(a.drop_first(), b.drop_first())
    }
}

/// Lemma: no sequence comes before itself.
pub proof fn lemma_seq_lt_irreflexive(a: Seq<char>)
    ensures
        !seq_lt(a, a),
    decreases a.len(),
{
    if a.len() > 0 {
        lemma_seq_lt_irreflexive(a.drop_first());
    }
}

/// Lemma: the order is transitive.
pub proof fn lemma_seq_lt_transitive(a: Seq<char>, b: Seq<char>, c: Seq<char>)
    requires
        seq_lt(a, b),
        seq_lt(b, c),
    ensures
        seq_lt(a, c),
    decreases a.len(),
{
    if a.len() > 0 && b.len() > 0 && c.len() > 0 {
        if a[0] == b[0] && b[0] == c[0] {
            lemma_seq_lt_transitive(a.drop_first(), b.drop_first(), c.drop_first());
        }
    }
}

/// Lemma: two different sequences are ordered one way or the other.
pub proof fn lemma_seq_lt_total(a: Seq<char>, b: Seq<char>)
    requires
        a != b,
    ensures
        seq_lt(a, b) || seq_lt(b, a),
    decreases a.len(),
{
    if a.len() > 0 && b.len() > 0 && a[0] == b[0] {
        if a.drop_first() =~= b.drop_first() {
            assert(a =~= b) by {
                assert forall|i: int| 0 <= i < a.len() implies a[i] == b[i] by {
                    if i > 0 {
                        assert(a[i] == a.drop_first()[i - 1]);
                        assert(b[i] == b.drop_first()[i - 1]);
                    }
                }
            }
        }
        lemma_seq_lt_total(a.drop_first(), b.drop_first());
    } else if a.len() == 0 && b.len() == 0 {
        assert(a =~= b);
    }
}

/// Lemma: two sequences are not ordered both ways.
pub proof fn lemma_seq_lt_asymmetric(a: Seq<char>, b: Seq<char>)
    requires
        seq_lt(a, b),
    ensures
        !seq_lt(b, a),
{
    if seq_lt(b, a) {
        lemma_seq_lt_transitive(a, b, a);
        lemma_seq_lt_irreflexive(a);
    }
}

/// Lemma: a common prefix does not change the order.
proof fn lemma_seq_lt_common_prefix(a: Seq<char>, b: Seq<char>, i: int)
    requires
        0 <= i <= a.len(),
        i <= b.len(),
        a.take(i) == b.take(i),
    ensures
        seq_lt(a, b) == seq_lt(a.skip(i), b.skip(i)),
    decreases i,
{
    if i > 0 {
        assert(a[0] == a.take(i)[0] && b[0] == b.take(i)[0]);
        assert(a.drop_first().take(i - 1) == a.take(i).drop_first());
        assert(b.drop_first().take(i - 1) == b.take(i).drop_first());
        lemma_seq_lt_common_prefix(a.drop_first(), b.drop_first(), i - 1);
        assert(a.drop_first().skip(i - 1) == a.skip(i));
        assert(b.drop_first().skip(i - 1) == b.skip(i));
    } else {
        assert(a.skip(0) == a);
        assert(b.skip(0) == b);
    }
}

/// Whether `a` has a smaller code point than `b`.
fn char_lt(a: char, b: char) -> (r: bool)
    ensures
        r == ((a as int) < (b as int)),
{
    (a as u32) < (b as u32)
}

/// Compares two strings: negative when `a` comes first, zero when they are
/// equal, positive when `b` comes first.
pub fn compare_str(a: &str, b: &str) -> (r: i8)
    ensures
        r < 0 <==> seq_lt(a@, b@),
        r == 0 <==> a@ == b@,
        r > 0 <==> seq_lt(b@, a@),
{
    let x = chars_of(a);
    let y = chars_of(b);
    let mut i: usize = 0;
    while i < x.len() && i < y.len() && x[i] == y[i]
        invariant
            i <= x.len(),
            i <= y.len(),
            x@.take(i as int) == y@.take(i as int),
        decreases x.len() - i,
    {
        assert(x@.take(i + 1) == x@.take(i as int).push(x@[i as int]));
        assert(y@.take(i + 1) == y@.take(i as int).push(y@[i as int]));
        i += 1;
    }
    proof {
        lemma_seq_lt_common_prefix(x@, y@, i as int);
        lemma_seq_lt_common_prefix(y@, x@, i as int);
        lemma_seq_lt_irreflexive(x@);
        if i == x.len() && i == y.len() {
            assert(x@ =~= x@.take(i as int));
            assert(y@ =~= y@.take(i as int));
        } else {
            if i < x.len() && i < y.len() {
                assert(x@[i as int] != y@[i as int]);

                assert(x@.skip(i as int)[0] == x@[i as int]);
                assert(y@.skip(i as int)[0] == y@[i as int]);
            }
            if x@ == y@ {
                assert(x@[i as int] == y@[i as int]);
            }
            if seq_lt(x@, y@) {
                lemma_seq_lt_asymmetric(x@, y@);
            }
            if seq_lt(y@, x@) {
                lemma_seq_lt_asymmetric(y@, x@);
            }
        }
    }
    if i == x.len() && i == y.len() {
        0
    } else if i == x.len() {
        -1
    } else if i == y.len() {
        1
    } else if char_lt(x[i], y[i]) {
        -1
    } else {
        1
    }
}

// ---------------------------------------------------------------------
// Sets
// ---------------------------------------------------------------------

/// Whether `s` is in strictly ascending order.
pub open spec fn ascending(s: Seq<Seq<char>>) -> bool {
    forall|i: int, j: int| 0 <= i < j < s.len() ==> seq_lt(s[i], s[j])
}

/// The character sequences of a sequence of strings.
pub open spec fn string_views(v: Seq<String>) -> Seq<Seq<char>> {
    v.map_values(|s: String| s@)
}

/// A set of strings, kept in ascending order.
#[derive(Debug, Clone, PartialEq, Eq, Default)]
pub struct StringSet {
    items: Vec<String>,
}

impl StringSet {
    /// The strings of the set in ascending order, each once.
    pub closed spec fn elems(&self) -> Seq<Seq<char>> {
        string_views(self.items@)
    }

    /// Whether the set is well formed: strictly ascending.
    pub closed spec fn wf(&self) -> bool {
        ascending(self.elems())
    }

    /// The strings of the set, as a mathematical set.
    pub open spec fn view(&self) -> Set<Seq<char>> {
        self.elems().to_set()
    }

    /// Lemma: the elements are ascending, hence each occurs once.
    pub proof fn lemma_wf(&self)
        requires
            self.wf(),
        ensures
            ascending(self.elems()),
            self.elems().no_duplicates(),
    {
        assert forall|i: int, j: int|
            0 <= i < self.elems().len() && 0 <= j < self.elems().len() && i != j implies self.elems()[i]
            != self.elems()[j] by {
            if i < j {
                lemma_seq_lt_irreflexive(self.elems()[i]);
            } else {
                lemma_seq_lt_irreflexive(self.elems()[j]);
            }
        }
    }

    /// The empty set.
    pub fn new() -> (s: Self)
        ensures
            s.wf(),
            s.elems() == Seq::<Seq<char>>::empty(),
    {
        let s = StringSet { items: Vec::new() };
        assert(s.elems() =~= Seq::<Seq<char>>::empty());
        s
    }

    /// Number of strings in the set.
    pub fn len(&self) -> (n: usize)
        ensures
            n == self.elems().len(),
    {
        self.items.len()
    }

    /// Whether the set is empty.
    pub fn is_empty(&self) -> (b: bool)
        ensures
            b == (self.elems().len() == 0),
    {
        self.items.len() == 0
    }

    /// The `i`-th string in ascending order.
    pub fn get(&self, i: usize) -> (s: &String)
        requires
            i < self.elems().len(),
        ensures
            s@ == self.elems()[i as int],
    {
        &self.items[i]
    }

    /// Whether `s` is in the set.
    pub fn contains(&self, s: &str) -> (b: bool)
        ensures
            b == self.elems().contains(s@),
    {
        let mut i: usize = 0;
        while i < self.items.len()
            invariant
                i <= self.items.len(),
                forall|k: int| 0 <= k < i ==> self.elems()[k] != s@,
            decreases self.items.len() - i,
        {
            assert(self.elems()[i as int] == self.items@[i as int]@);
            if compare_str(self.items[i].as_str(), s) == 0 {
                assert(self.elems()[i as int] == s@);
                return true;
            }
            i += 1;
        }
        false
    }

    /// Adds `s`; returns whether it was not in the set before.
    pub fn insert(&mut self, s: String) -> (added: bool)
        requires
            old(self).wf(),
        ensures
            final(self).wf(),
            added == !old(self).elems().contains(s@),
            final(self)@ == old(self)@.insert(s@),
    {
        let ghost before = self.elems();
        let mut p: usize = 0;
        while p < self.items.len() && compare_str(self.items[p].as_str(), s.as_str()) < 0
            invariant
                p <= self.items.len(),
                self.elems() == before,
                ascending(before),
                forall|q: int| 0 <= q < p ==> seq_lt(before[q], s@),
            decreases self.items.len() - p,
        {
            assert(before[p as int] == self.items@[p as int]@);
            p += 1;
        }
        if p < self.items.len() {
            assert(before[p as int] == self.items@[p as int]@);
        }
        if p < self.items.len() && compare_str(self.items[p].as_str(), s.as_str()) == 0 {
            assert(before[p as int] == s@);
            assert(self@ =~= old(self)@.insert(s@));
            return false;
        }
        proof {
            if p < before.len() {
                lemma_seq_lt_total(before[p as int], s@);
            }
            assert forall|q: int| p <= q < before.len() implies seq_lt(s@, before[q]) by {
                if q > p {
                    lemma_seq_lt_transitive(s@, before[p as int], before[q]);
                }
            }
            assert(!before.contains(s@)) by {
                if before.contains(s@) {
                    let k = choose|k: int| 0 <= k < before.len() && before[k] == s@;
                    if k < p {
                        lemma_seq_lt_irreflexive(s@);
                    } else {
                        lemma_seq_lt_irreflexive(s@);
                    }
                }
            }
        }
        let ghost sv = s@;
        self.items.insert(p, s);
        proof {
            let after = self.elems();
            assert(after =~= before.insert(p as int, sv));
            assert forall|i: int, j: int| 0 <= i < j < after.len() implies seq_lt(after[i], after[j]) by {
                if j < p {
                } else if j == p {
                } else if i < p {
                    assert(after[j] == before[j - 1]);
                    lemma_seq_lt_transitive(before[i], sv, before[j - 1]);
                } else if i == p {
                    assert(after[j] == before[j - 1]);
                } else {
                    assert(after[i] == before[i - 1] && after[j] == before[j - 1]);
                }
            }
            assert(self@ =~= old(self)@.insert(sv)) by {
                assert forall|x: Seq<char>| after.contains(x) <==> (before.contains(x) || x == sv) by {
                    if after.contains(x) {
                        let k = choose|k: int| 0 <= k < after.len() && after[k] == x;
                        if k < p {
                            assert(before[k] == x);
                        } else if k > p {
                            assert(before[k - 1] == x);
                        }
                    }
                    if before.contains(x) {
                        let k = choose|k: int| 0 <= k < before.len() && before[k] == x;
                        if k < p {
                            assert(after[k] == x);
                        } else {
                            assert(after[k + 1] == x);
                        }
                    }
                    if x == sv {
                        assert(after[p as int] == x);
                    }
                }
            }
        }
        true
    }

    /// Removes `s`; returns whether it was in the set.
    pub fn remove(&mut self, s: &str) -> (removed: bool)
        requires
            old(self).wf(),
        ensures
            final(self).wf(),
            removed == old(self).elems().contains(s@),
            final(self)@ == old(self)@.remove(s@),
    {
        let ghost before = self.elems();
        proof {
            self.lemma_wf();
        }
        let mut i: usize = 0;
        while i < self.items.len()
            invariant
                i <= self.items.len(),
                self.elems() == before,
                before == old(self).elems(),
                ascending(before),
                before.no_duplicates(),
                forall|k: int| 0 <= k < i ==> before[k] != s@,
            decreases self.items.len() - i,
        {
            assert(before[i as int] == self.items@[i as int]@);
            if compare_str(self.items[i].as_str(), s) == 0 {
                self.items.remove(i);
                proof {
                    let after = self.elems();
                    assert(after =~= before.remove(i as int));
                    assert forall|a: int, b: int| 0 <= a < b < after.len() implies seq_lt(
                        after[a],
                        after[b],
                    ) by {
                        if b < i {
                        } else if a < i {
                            assert(after[b] == before[b + 1]);
                        } else {
                            assert(after[a] == before[a + 1] && after[b] == before[b + 1]);
                        }
                    }
                    assert(self@ =~= old(self)@.remove(s@)) by {
                        assert forall|x: Seq<char>|
                            after.contains(x) <==> (before.contains(x) && x != s@) by {
                            if after.contains(x) {
                                let k = choose|k: int| 0 <= k < after.len() && after[k] == x;
                                if k < i {
                                    assert(before[k] == x);
                                } else {
                                    assert(before[k + 1] == x);
                                    assert(before[k + 1] != before[i as int]);
                                }
                            }
                            if before.contains(x) && x != s@ {
                                let k = choose|k: int| 0 <= k < before.len() && before[k] == x;
                                if k < i {
                                    assert(after[k] == x);
                                } else {
                                    assert(k != i);
                                    assert(after[k - 1] == x);
                                }
                            }
                        }
                    }
                    assert(before.contains(s@)) by {
                        assert(before[i as int] == s@);
                    }
                }
                return true;
            }
            i += 1;
        }
        assert(self@ =~= old(self)@.remove(s@));
        false
    }

    /// The strings of `self` that are not in `other`, in ascending order.
    pub fn difference(&self, other: &StringSet) -> (out: Vec<String>)
        requires
            self.wf(),
        ensures
            ascending(string_views(out@)),
            string_views(out@) == self.elems().filter(|x: Seq<char>| !other.elems().contains(x)),
    {
        let ghost pred = |x: Seq<char>| !other.elems().contains(x);
        let mut out: Vec<String> = Vec::new();
        let mut i: usize = 0;
        assert(self.elems().take(0).filter(pred) =~= Seq::<Seq<char>>::empty());
        assert(string_views(out@) =~= Seq::<Seq<char>>::empty());
        while i < self.items.len()
            invariant
                i <= self.items.len(),
                self.wf(),
                pred == (|x: Seq<char>| !other.elems().contains(x)),
                string_views(out@) == self.elems().take(i as int).filter(pred),
            decreases self.items.len() - i,
        {
            assert(self.elems().take(i + 1).drop_last() == self.elems().take(i as int));
            assert(self.elems()[i as int] == self.items@[i as int]@);
            assert(self.elems().take(i + 1).last() == self.elems()[i as int]);
            reveal_with_fuel(Seq::filter, 1);
            if !other.contains(self.items[i].as_str()) {
                let ghost before = string_views(out@);
                out.push(copy_string(&self.items[i]));
                assert(string_views(out@) =~= before.push(self.elems()[i as int]));
            }
            i += 1;
        }
        assert(self.elems().take(self.items.len() as int) == self.elems());
        proof {
            lemma_filter_ascending(self.elems(), pred);
        }
        out
    }

    /// The strings of the set in ascending order.
    pub fn to_vec(&self) -> (out: Vec<String>)
        ensures
            string_views(out@) == self.elems(),
    {
        let mut out: Vec<String> = Vec::new();
        let mut i: usize = 0;
        while i < self.items.len()
            invariant
                i <= self.items.len(),
                string_views(out@) == self.elems().take(i as int),
            decreases self.items.len() - i,
        {
            let ghost before = string_views(out@);
            assert(self.elems()[i as int] == self.items@[i as int]@);
            let c = copy_string(&self.items[i]);
            out.push(c);
            assert(string_views(out@) =~= before.push(self.elems()[i as int]));
            assert(self.elems().take(i + 1) =~= self.elems().take(i as int).push(self.elems()[i as int]));
            i += 1;
        }
        assert(self.elems().take(self.items.len() as int) == self.elems());
        out
    }

    /// A copy of the set.
    pub fn copy(&self) -> (out: StringSet)
        requires
            self.wf(),
        ensures
            out.wf(),
            out.elems() == self.elems(),
    {
        let items = self.to_vec();
        let out = StringSet { items };
        assert(out.elems() == self.elems());
        out
    }

    /// Whether both sets hold the same strings.
    pub fn same_as(&self, other: &StringSet) -> (b: bool)
        ensures
            b == (self.elems() == other.elems()),
    {
        if self.items.len() != other.items.len() {
            assert(self.elems().len() != other.elems().len());
            return false;
        }
        let mut i: usize = 0;
        while i < self.items.len()
            invariant
                i <= self.items.len() == other.items.len(),
                forall|k: int| 0 <= k < i ==> self.elems()[k] == other.elems()[k],
            decreases self.items.len() - i,
        {
            assert(self.elems()[i as int] == self.items@[i as int]@);
            assert(other.elems()[i as int] == other.items@[i as int]@);
            if compare_str(self.items[i].as_str(), other.items[i].as_str()) != 0 {
                return false;
            }
            i += 1;
        }
        assert(self.elems() =~= other.elems());
        true
    }
}

/// Lemma: what is kept of an ascending sequence stays ascending.
pub proof fn lemma_filter_ascending(s: Seq<Seq<char>>, pred: spec_fn(Seq<char>) -> bool)
    requires
        ascending(s),
    ensures
        ascending(s.filter(pred)),
    decreases s.len(),
{
    reveal_with_fuel(Seq::filter, 1);
    if s.len() > 0 {
        let init = s.drop_last();
        assert(ascending(init)) by {
            assert forall|i: int, j: int| 0 <= i < j < init.len() implies seq_lt(init[i], init[j]) by {
                assert(init[i] == s[i] && init[j] == s[j]);
            }
        }
        lemma_filter_ascending(init, pred);
        let f = init.filter(pred);
        if pred(s.last()) {
            assert forall|k: int| 0 <= k < f.len() implies seq_lt(f[k], s.last()) by {
                assert(f.contains(f[k]));
                init.lemma_filter_contains_rev(pred, f[k]);
                assert(init.contains(f[k]));
                let m = choose|m: int| 0 <= m < init.len() && init[m] == f[k];
                assert(s[m] == f[k]);
            }
            let g = s.filter(pred);
            assert(g == f.push(s.last()));
            assert forall|i: int, j: int| 0 <= i < j < g.len() implies seq_lt(g[i], g[j]) by {
                if j < f.len() {
                    assert(g[i] == f[i] && g[j] == f[j]);
                } else {
                    assert(g[i] == f[i]);
                }
            }
        }
    }
}

// ---------------------------------------------------------------------
// Maps
// ---------------------------------------------------------------------

/// A map from strings to values, each key once.
#[derive(Debug, Clone, PartialEq, Eq, Default)]
pub struct StringMap<V> {
    entries: Vec<(String, V)>,
}

impl<V> StringMap<V> {
    /// The keys of the map, in the order they were first inserted.
    pub closed spec fn keys(&self) -> Seq<Seq<char>> {
        self.entries@.map_values(|e: (String, V)| e.0@)
    }

    /// Whether each key occurs once.
    pub closed spec fn wf(&self) -> bool {
        self.keys().no_duplicates()
    }

    /// The map from keys to values.
    pub closed spec fn view(&self) -> Map<Seq<char>, V> {
        Map::new(
            |k: Seq<char>| self.keys().contains(k),
            |k: Seq<char>| self.entries@[self.keys().index_of(k)].1,
        )
    }

    /// The empty map.
    pub fn new() -> (m: Self)
        ensures
            m.wf(),
            m@ == Map::<Seq<char>, V>::empty(),
    {
        let m = StringMap { entries: Vec::new() };
        assert(m.keys() =~= Seq::<Seq<char>>::empty());
        assert(m@ =~= Map::<Seq<char>, V>::empty());
        m
    }

    fn find(&self, key: &str) -> (r: Option<usize>)
        requires
            self.wf(),
        ensures
            match r {
                Some(i) => i < self.entries.len() && self.keys()[i as int] == key@ && self.keys().index_of(
                    key@,
                ) == i,
                None => !self.keys().contains(key@),
            },
    {
        let mut i: usize = 0;
        while i < self.entries.len()
            invariant
                i <= self.entries.len(),
                self.wf(),
                forall|k: int| 0 <= k < i ==> self.keys()[k] != key@,
            decreases self.entries.len() - i,
        {
            assert(self.keys()[i as int] == self.entries@[i as int].0@);
            if compare_str(self.entries[i].0.as_str(), key) == 0 {
                proof {
                    assert(self.keys().contains(key@));
                    let j = self.keys().index_of(key@);
                    assert(self.keys()[j] == key@);
                    if j != i {
                        assert(self.keys()[j] == self.keys()[i as int]);
                    }
                }
                return Some(i);
            }
            i += 1;
        }
        None
    }

    /// The value of `key`, if any.
    pub fn get(&self, key: &str) -> (r: Option<&V>)
        requires
            self.wf(),
        ensures
            match r {
                Some(v) => self@.contains_key(key@) && *v == self@[key@],
                None => !self@.contains_key(key@),
            },
    {
        match self.find(key) {
            Some(i) => Some(&self.entries[i].1),
            None => None,
        }
    }

    /// Whether `key` has a value.
    pub fn contains_key(&self, key: &str) -> (b: bool)
        requires
            self.wf(),
        ensures
            b == self@.contains_key(key@),
    {
        self.find(key).is_some()
    }

    /// Sets the value of `key`.
    pub fn insert(&mut self, key: String, value: V)
        requires
            old(self).wf(),
        ensures
            final(self).wf(),
            final(self)@ == old(self)@.insert(key@, value),
    {
        let ghost before = self.entries@;
        let ghost kv = key@;
        match self.find(key.as_str()) {
            Some(i) => {
                self.entries.set(i, (key, value));
                proof {
                    let ks = self.keys();
                    assert(ks =~= old(self).keys());
                    assert(self.entries@[i as int].1 == value);
                    let target = old(self)@.insert(kv, value);
                    assert(ks.contains(kv));
                    assert(self@.dom() =~= target.dom());
                    assert forall|k: Seq<char>| #[trigger] self@.contains_key(k) implies self@[k]
                        == target[k] by {
                        if k == kv {
                            assert(ks.index_of(k) == i);
                        } else {
                            assert(ks.index_of(k) != i);
                            assert(self.entries@[ks.index_of(k)] == old(self).entries@[ks.index_of(
                                k,
                            )]);
                        }
                    }
                    assert(self@ =~= target);
                }
            },
            None => {
                self.entries.push((key, value));
                proof {
                    let ks = self.keys();
                    assert(ks =~= old(self).keys().push(kv));
                    assert(ks.no_duplicates()) by {
                        assert forall|a: int, b: int| 0 <= a < ks.len() && 0 <= b < ks.len() && a != b implies ks[a] != ks[b] by {
                            if a == ks.len() - 1 {
                                assert(old(self).keys().contains(ks[b]) ==> ks[b] != kv);
                                assert(old(self).keys()[b] == ks[b]);
                            } else if b == ks.len() - 1 {
                                assert(old(self).keys()[a] == ks[a]);
                            }
                        }
                    }
                    assert forall|k: Seq<char>| old(self).keys().contains(k) implies ks.index_of(k)
                        == old(self).keys().index_of(k) by {
                        let j = old(self).keys().index_of(k);
                        assert(ks[j] == k);
                        let j2 = ks.index_of(k);
                        if j2 != j {
                            if j2 < j {
                            } else {
                                assert(j2 == ks.len() - 1 ==> false);
                            }
                        }
                    }
                    assert(ks[ks.len() - 1] == kv);
                    assert(ks.contains(kv));
                    assert(ks.index_of(kv) == ks.len() - 1) by {
                        let j = ks.index_of(kv);
                        if j != ks.len() - 1 {
                            assert(old(self).keys()[j] == kv);
                        }
                    }
                    let target = old(self)@.insert(kv, value);
                    assert(self@.dom() =~= target.dom()) by {
                        assert forall|k: Seq<char>| ks.contains(k) <==> (old(self).keys().contains(k) || k == kv) by {
                            if ks.contains(k) {
                                let j = choose|j: int| 0 <= j < ks.len() && ks[j] == k;
                                if j < ks.len() - 1 {
                                    assert(old(self).keys()[j] == k);
                                }
                            }
                            if old(self).keys().contains(k) {
                                let j = choose|j: int| 0 <= j < old(self).keys().len() && old(self).keys()[j] == k;
                                assert(ks[j] == k);
                            }
                        }
                    }
                    assert forall|k: Seq<char>| #[trigger] self@.contains_key(k) implies self@[k]
                        == target[k] by {
                        if k == kv {
                        } else {
                            let j = ks.index_of(k);
                            assert(j < ks.len() - 1);
                            assert(self.entries@[j] == old(self).entries@[j]);
                        }
                    }
                    assert(self@ =~= target);
                }
            },
        }
    }

    /// Removes `key` and its value.
    pub fn remove(&mut self, key: &str)
        requires
            old(self).wf(),
        ensures
            final(self).wf(),
            final(self)@ == old(self)@.remove(key@),
    {
        match self.find(key) {
            Some(i) => {
                let ghost ks0 = self.keys();
                self.entries.remove(i);
                proof {
                    let ks = self.keys();
                    assert(ks =~= ks0.remove(i as int));
                    assert(ks.no_duplicates()) by {
                        assert forall|a: int, b: int| 0 <= a < ks.len() && 0 <= b < ks.len() && a != b implies ks[a] != ks[b] by {
                            let a0 = if a < i { a } else { a + 1 };
                            let b0 = if b < i { b } else { b + 1 };
                            assert(ks[a] == ks0[a0] && ks[b] == ks0[b0]);
                        }
                    }
                    assert forall|k: Seq<char>| ks.contains(k) <==> (ks0.contains(k) && k != key@) by {
                        if ks.contains(k) {
                            let j = choose|j: int| 0 <= j < ks.len() && ks[j] == k;
                            let j0 = if j < i { j } else { j + 1 };
                            assert(ks0[j0] == k);
                            assert(j0 != i);
                        }
                        if ks0.contains(k) && k != key@ {
                            let j = choose|j: int| 0 <= j < ks0.len() && ks0[j] == k;
                            assert(j != i);
                            if j < i {
                                assert(ks[j] == k);
                            } else {
                                assert(ks[j - 1] == k);
                            }
                        }
                    }
                    assert forall|k: Seq<char>| ks.contains(k) implies self.entries@[ks.index_of(k)].1
                        == old(self).entries@[ks0.index_of(k)].1 by {
                        let j = ks.index_of(k);
                        let j0 = if j < i { j } else { j + 1 };
                        assert(ks0[j0] == k);
                        assert(ks0.index_of(k) == j0) by {
                            let m = ks0.index_of(k);
                            if m != j0 {
                                assert(ks0[m] == ks0[j0]);
                            }
                        }
                    }
                    assert(self@ =~= old(self)@.remove(key@));
                }
            },
            None => {
                assert(self@ =~= old(self)@.remove(key@));
            },
        }
    }
}


} // verus!
