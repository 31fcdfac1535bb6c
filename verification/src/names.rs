//! Sorted lists of names, and maps keyed by name.
use vstd::prelude::*;

use crate::text::{before, precedes, same, views};

verus! {

// ---------------------------------------------------------------------------
// Sorted lists
// ---------------------------------------------------------------------------

/// Each name precedes every later one, so none occurs twice.
pub open spec fn increasing(s: Seq<Seq<char>>) -> bool {
    forall|i: int, j: int| 0 <= i < j < s.len() ==> before(#[trigger] s[i], #[trigger] s[j])
}

/// `s` lists exactly the names of `set`, in order.
pub open spec fn lists(s: Seq<Seq<char>>, set: Set<Seq<char>>) -> bool {
    &&& increasing(s)
    &&& forall|k: Seq<char>| #[trigger] s.contains(k) <==> set.contains(k)
}

/// A set of names has only one list.
pub proof fn lists_unique(a: Seq<Seq<char>>, b: Seq<Seq<char>>, set: Set<Seq<char>>)
    requires
        lists(a, set),
        lists(b, set),
    ensures
        a == b,
    decreases a.len(),
{
    if a.len() == 0 {
        if b.len() > 0 {
            assert(b.contains(b[0]));
            assert(a.contains(b[0]));
        }
        assert(a =~= b);
    } else {
        assert(a.contains(a[0]));
        assert(b.contains(a[0]));
        let i = choose|i: int| 0 <= i < b.len() && b[i] == a[0];
        assert(b.contains(b[0]));
        assert(a.contains(b[0]));
        let j = choose|j: int| 0 <= j < a.len() && a[j] == b[0];
        if i > 0 && j > 0 {
            crate::text::before_asymmetric(b[0], b[i]);
            assert(before(a[0], a[j]));
        }
        assert(a[0] == b[0]);
        let rest = set.remove(a[0]);
        lists_tail(a, set);
        lists_tail(b, set);
        lists_unique(a.drop_first(), b.drop_first(), rest);
        assert(a =~= seq![a[0]] + a.drop_first());
        assert(b =~= seq![b[0]] + b.drop_first());
    }
}

proof fn lists_tail(a: Seq<Seq<char>>, set: Set<Seq<char>>)
    requires
        lists(a, set),
        a.len() > 0,
    ensures
        lists(a.drop_first(), set.remove(a[0])),
{
    let t = a.drop_first();
    assert forall|k: Seq<char>| #[trigger] t.contains(k) <==> set.remove(a[0]).contains(k) by {
        if t.contains(k) {
            let i = choose|i: int| 0 <= i < t.len() && t[i] == k;
            assert(a[i + 1] == k);
            assert(a.contains(k));
            assert(before(a[0], a[i + 1]));
            crate::text::before_asymmetric(a[0], k);
        }
        if set.contains(k) && k != a[0] {
            assert(a.contains(k));
            let i = choose|i: int| 0 <= i < a.len() && a[i] == k;
            assert(t[i - 1] == k);
        }
    }
}

/// What is left of a sorted list after a filter is sorted.
pub proof fn filter_keeps_order(s: Seq<Seq<char>>, p: spec_fn(Seq<char>) -> bool)
    requires
        increasing(s),
    ensures
        increasing(s.filter(p)),
    decreases s.len(),
{
    reveal(Seq::filter);
    if s.len() > 0 {
        let rest = s.drop_last();
        assert(increasing(rest));
        filter_keeps_order(rest, p);
        crate::seqs::filtered(rest, p);
        let f = rest.filter(p);
        let all = s.filter(p);
        assert forall|i: int, j: int| 0 <= i < j < all.len() implies before(
            #[trigger] all[i],
            #[trigger] all[j],
        ) by {
            if j < f.len() {
                assert(before(f[i], f[j]));
            } else {
                assert(rest.contains(f[i]));
                let k = choose|k: int| 0 <= k < rest.len() && rest[k] == f[i];
                assert(before(s[k], s[s.len() - 1]));
            }
        }
    }
}

/// Puts `s` in its place in a sorted list, unless it is there already; says
/// whether it was new.
pub fn insert_name(v: &mut Vec<String>, s: &str) -> (new: bool)
    requires
        increasing(views(old(v)@)),
    ensures
        increasing(views(final(v)@)),
        new == !views(old(v)@).contains(s@),
        forall|k: Seq<char>| #[trigger]
            views(final(v)@).contains(k) <==> views(old(v)@).contains(k) || k == s@,
        final(v)@.len() == old(v)@.len() + (if new { 1int } else { 0 }),
{
    let ghost olds = views(v@);
    let mut i: usize = 0;
    let mut to: usize = v.len();
    while i < to
        invariant
            v@ == old(v)@,
            olds == views(v@),
            increasing(olds),
            i <= to <= v@.len(),
            forall|j: int| 0 <= j < i ==> before(#[trigger] olds[j], s@),
            forall|j: int| to <= j < olds.len() ==> !before(#[trigger] olds[j], s@),
        decreases to - i,
    {
        let mid: usize = i + (to - i) / 2;
        assert(olds[mid as int] == v@[mid as int]@);
        if precedes(v[mid].as_str(), s) {
            assert forall|j: int| 0 <= j < mid + 1 implies before(#[trigger] olds[j], s@) by {
                if j < mid {
                    assert(before(olds[j], olds[mid as int]));
                    crate::text::before_transitive(olds[j], olds[mid as int], s@);
                }
            }
            i = mid + 1;
        } else {
            assert forall|j: int| mid <= j < olds.len() implies !before(#[trigger] olds[j], s@) by {
                if j > mid && before(olds[j], s@) {
                    assert(before(olds[mid as int], olds[j]));
                    crate::text::before_transitive(olds[mid as int], olds[j], s@);
                }
            }
            to = mid;
        }
    }
    if i < v.len() && same(v[i].as_str(), s) {
        assert(olds[i as int] == s@);
        return false;
    }
    proof {
        if i < v@.len() {
            assert(olds[i as int] == v@[i as int]@);
            crate::text::before_total(olds[i as int], s@);
        }
        assert forall|j: int| i <= j < olds.len() implies before(s@, #[trigger] olds[j]) by {
            if j > i {
                assert(before(olds[i as int], olds[j]));
                crate::text::before_transitive(s@, olds[i as int], olds[j]);
            }
        }
        if olds.contains(s@) {
            let k = choose|k: int| 0 <= k < olds.len() && olds[k] == s@;
            crate::text::before_irreflexive(s@);
            if k < i {
                assert(before(olds[k], s@));
            }
        }
    }
    let own = s.to_owned();
    v.insert(i, own);
    proof {
        let news = views(v@);
        assert(news =~= olds.insert(i as int, s@));
        assert forall|a: int, b: int| 0 <= a < b < news.len() implies before(
            #[trigger] news[a],
            #[trigger] news[b],
        ) by {
            if a < i && b == i {
                assert(before(olds[a], s@));
            } else if a < i && b < i {
                assert(before(olds[a], olds[b]));
            } else if a < i && b > i {
                assert(before(olds[a], olds[b - 1]));
            } else if a == i {
                assert(before(s@, olds[b - 1]));
            } else {
                assert(before(olds[a - 1], olds[b - 1]));
            }
        }
        assert forall|k: Seq<char>| #[trigger] news.contains(k) <==> olds.contains(k) || k
            == s@ by {
            if news.contains(k) {
                let a = choose|a: int| 0 <= a < news.len() && news[a] == k;
                if a < i {
                    assert(olds[a] == k);
                } else if a > i {
                    assert(olds[a - 1] == k);
                }
            }
            if olds.contains(k) {
                let a = choose|a: int| 0 <= a < olds.len() && olds[a] == k;
                if a < i {
                    assert(news[a] == k);
                } else {
                    assert(news[a + 1] == k);
                }
            }
            assert(news[i as int] == s@);
        }
    }
    true
}

// ---------------------------------------------------------------------------
// Maps keyed by name
// ---------------------------------------------------------------------------

/// A map from names to values, walked in the order of the names.
#[derive(Debug)]
pub struct NameMap<V> {
    entries: Vec<(String, V)>,
}

impl<V> NameMap<V> {
    /// The names, in order.
    pub closed spec fn names(self) -> Seq<Seq<char>> {
        self.entries@.map_values(|e: (String, V)| e.0@)
    }

    /// The values, in the order of their names.
    pub closed spec fn vals(self) -> Seq<V> {
        self.entries@.map_values(|e: (String, V)| e.1)
    }

    /// The names with their values, in order.
    pub open spec fn pairs(self) -> Seq<(Seq<char>, V)> {
        Seq::new(self.names().len(), |i: int| (self.names()[i], self.vals()[i]))
    }

    /// The names are sorted, each with its value.
    #[verifier::type_invariant]
    pub closed spec fn wf(self) -> bool {
        increasing(self.names())
    }
}

/// What a map built of `names` and `vals` holds.
pub open spec fn paired<V>(names: Seq<Seq<char>>, vals: Seq<V>) -> Map<Seq<char>, V> {
    Map::new(|k: Seq<char>| names.contains(k), |k: Seq<char>| vals[names.index_of(k)])
}

impl<V> View for NameMap<V> {
    type V = Map<Seq<char>, V>;

    open spec fn view(&self) -> Map<Seq<char>, V> {
        paired(self.names(), self.vals())
    }
}

/// What is known of a map that the library built: its names are listed in
/// order, and the value at a position is that of the name there.
pub open spec fn map_facts<V>(m: NameMap<V>) -> bool {
    &&& m.names().len() == m.vals().len()
    &&& lists(m.names(), m@.dom())
    &&& forall|i: int| 0 <= i < m.names().len() ==> m@[#[trigger] m.names()[i]] == m.vals()[i]
}

impl<V> NameMap<V> {
    proof fn facts_hold(&self)
        requires
            self.wf(),
        ensures
            map_facts(*self),
    {
        let names = self.names();
        assert forall|i: int| 0 <= i < names.len() implies self@[#[trigger] names[i]]
            == self.vals()[i] by {
            assert(names.contains(names[i]));
            let k = names.index_of(names[i]);
            assert(names[k] == names[i]);
            crate::text::before_irreflexive(names[i]);
            if k < i {
                assert(before(names[k], names[i]));
            } else if k > i {
                assert(before(names[i], names[k]));
            }
        }
    }

    /// The empty map.
    pub fn new() -> (m: NameMap<V>)
        ensures
            m@ == Map::<Seq<char>, V>::empty(),
            m.names().len() == 0,
            map_facts(m),
    {
        let m = NameMap { entries: Vec::new() };
        proof {
            m.facts_hold();
            assert(m@ =~= Map::<Seq<char>, V>::empty());
        }
        m
    }

    /// Makes what holds of every map known of this one.
    pub fn look(&self)
        ensures
            map_facts(*self),
    {
        proof {
            use_type_invariant(self);
            self.facts_hold();
        }
    }

    /// How many names the map holds.
    pub fn len(&self) -> (n: usize)
        ensures
            n == self.names().len(),
            n == self@.dom().len(),
            self@.dom().finite(),
            map_facts(*self),
    {
        proof {
            use_type_invariant(self);
            self.facts_hold();
            let names = self.names();
            assert(names.no_duplicates()) by {
                assert forall|i: int, j: int|
                    0 <= i < names.len() && 0 <= j < names.len() && i != j implies names[i]
                    != names[j] by {
                    if i < j {
                        crate::text::before_asymmetric(names[i], names[j]);
                    } else {
                        crate::text::before_asymmetric(names[j], names[i]);
                    }
                }
            }
            names.unique_seq_to_set();
            assert(names.to_set() =~= self@.dom());
        }
        self.entries.len()
    }

    /// Whether the map holds nothing.
    pub fn is_empty(&self) -> (r: bool)
        ensures
            r == (self.names().len() == 0),
            map_facts(*self),
    {
        self.look();
        self.entries.len() == 0
    }

    /// The name at position `i`.
    pub fn name_at(&self, i: usize) -> (s: &String)
        requires
            i < self.names().len(),
        ensures
            s@ == self.names()[i as int],
            map_facts(*self),
    {
        self.look();
        &self.entries[i].0
    }

    /// The value at position `i`.
    pub fn val_at(&self, i: usize) -> (v: &V)
        requires
            i < self.names().len(),
        ensures
            *v == self.vals()[i as int],
            map_facts(*self),
    {
        self.look();
        &self.entries[i].1
    }

    fn place(&self, k: &str) -> (r: (usize, bool))
        ensures
            r.0 <= self.names().len(),
            r.1 ==> r.0 < self.names().len() && self.names()[r.0 as int] == k@,
            !r.1 ==> !self.names().contains(k@),
            forall|j: int| 0 <= j < r.0 ==> before(#[trigger] self.names()[j], k@),
            !r.1 ==> forall|j: int|
                r.0 <= j < self.names().len() ==> before(k@, #[trigger] self.names()[j]),
            map_facts(*self),
    {
        self.look();
        let ghost names = self.names();
        let mut i: usize = 0;
        let mut to: usize = self.entries.len();
        while i < to
            invariant
                map_facts(*self),
                names == self.names(),
                i <= to <= names.len(),
                names.len() == self.entries@.len(),
                forall|j: int| 0 <= j < i ==> before(#[trigger] names[j], k@),
                forall|j: int| to <= j < names.len() ==> !before(#[trigger] names[j], k@),
            decreases to - i,
        {
            let mid: usize = i + (to - i) / 2;
            assert(names[mid as int] == self.entries@[mid as int].0@);
            if precedes(self.entries[mid].0.as_str(), k) {
                assert forall|j: int| 0 <= j < mid + 1 implies before(#[trigger] names[j], k@) by {
                    if j < mid {
                        assert(before(names[j], names[mid as int]));
                        crate::text::before_transitive(names[j], names[mid as int], k@);
                    }
                }
                i = mid + 1;
            } else {
                assert forall|j: int| mid <= j < names.len() implies !before(
                    #[trigger] names[j],
                    k@,
                ) by {
                    if j > mid && before(names[j], k@) {
                        assert(before(names[mid as int], names[j]));
                        crate::text::before_transitive(names[mid as int], names[j], k@);
                    }
                }
                to = mid;
            }
        }
        if i < self.entries.len() {
            assert(names[i as int] == self.entries@[i as int].0@);
            if same(self.entries[i].0.as_str(), k) {
                return (i, true);
            }
            proof {
                crate::text::before_total(names[i as int], k@);
            }
        }
        proof {
            assert forall|j: int| i <= j < names.len() implies before(k@, #[trigger] names[j]) by {
                if j > i {
                    assert(before(names[i as int], names[j]));
                    crate::text::before_transitive(k@, names[i as int], names[j]);
                }
            }
            if names.contains(k@) {
                let a = choose|a: int| 0 <= a < names.len() && names[a] == k@;
                crate::text::before_irreflexive(k@);
                if a < i {
                    assert(before(names[a], k@));
                }
            }
        }
        (i, false)
    }

    /// The value of `k`, if the map has one.
    pub fn get(&self, k: &str) -> (r: Option<&V>)
        ensures
            r is Some <==> self@.contains_key(k@),
            r matches Some(v) ==> *v == self@[k@],
            map_facts(*self),
    {
        let (i, found) = self.place(k);
        if found {
            assert(self.names().contains(self.names()[i as int]));
            Some(&self.entries[i].1)
        } else {
            None
        }
    }

    /// Gives `k` the value `v`, in place of any it had.
    pub fn insert(&mut self, k: &str, v: V)
        ensures
            final(self)@ == old(self)@.insert(k@, v),
            map_facts(*final(self)),
            map_facts(*old(self)),
    {
        let (i, found) = self.place(k);
        let ghost names = self.names();
        let ghost vals = self.vals();
        let ghost was = self@;
        let mut es: Vec<(String, V)> = Vec::new();
        std::mem::swap(&mut es, &mut self.entries);
        let own = k.to_owned();
        let ghost olds = es@;
        if found {
            es.set(i, (own, v));
            proof {
                assert(es@.map_values(|e: (String, V)| e.0@) =~= names);
                assert(es@.map_values(|e: (String, V)| e.1) =~= vals.update(i as int, v));
            }
        } else {
            es.insert(i, (own, v));
            proof {
                let news = es@.map_values(|e: (String, V)| e.0@);
                assert(news =~= names.insert(i as int, k@));
                assert(es@.map_values(|e: (String, V)| e.1) =~= vals.insert(i as int, v));
                assert forall|a: int, b: int| 0 <= a < b < news.len() implies before(
                    #[trigger] news[a],
                    #[trigger] news[b],
                ) by {
                    if a < i && b == i {
                        assert(before(names[a], k@));
                    } else if a < i && b < i {
                        assert(before(names[a], names[b]));
                    } else if a < i && b > i {
                        assert(before(names[a], names[b - 1]));
                    } else if a == i {
                        assert(before(k@, names[b - 1]));
                    } else {
                        assert(before(names[a - 1], names[b - 1]));
                    }
                }
            }
        }
        self.entries = es;
        proof {
            self.facts_hold();
            let now = self.names();
            let nvals = self.vals();
            assert forall|q: Seq<char>| #[trigger] now.contains(q) <==> names.contains(q) || q
                == k@ by {
                if now.contains(q) {
                    let a = choose|a: int| 0 <= a < now.len() && now[a] == q;
                    if found {
                        assert(names[a] == q);
                    } else if a < i {
                        assert(names[a] == q);
                    } else if a > i {
                        assert(names[a - 1] == q);
                    }
                }
                if names.contains(q) {
                    let a = choose|a: int| 0 <= a < names.len() && names[a] == q;
                    if found || a < i {
                        assert(now[a] == q);
                    } else {
                        assert(now[a + 1] == q);
                    }
                }
                assert(now[i as int] == k@);
            }
            assert forall|q: Seq<char>| #[trigger] now.contains(q) implies self@[q]
                == was.insert(k@, v)[q] by {
                let a = choose|a: int| 0 <= a < now.len() && now[a] == q;
                assert(self@[now[a]] == nvals[a]);
                if a == i {
                    assert(nvals[a] == v);
                } else if found || a < i {
                    assert(was[names[a]] == vals[a]);
                    if found {
                        crate::text::before_irreflexive(k@);
                        if a < i {
                            assert(before(names[a], names[i as int]));
                        } else {
                            assert(before(names[i as int], names[a]));
                        }
                    }
                } else {
                    assert(was[names[a - 1]] == vals[a - 1]);
                }
            }
            assert(self@ =~= was.insert(k@, v));
        }
    }
}

impl<V> Default for NameMap<V> {
    fn default() -> (m: Self)
        ensures
            m@ == Map::<Seq<char>, V>::empty(),
            m.names().len() == 0,
    {
        NameMap::new()
    }
}

} // verus!
