//! The best connected nodes of a graph. Direction does not count here: a node
//! that is called twenty times and one that calls twenty others rank alike.
use vstd::prelude::*;

use crate::graph::{Edge, Node};
use crate::names::NameMap;
use crate::text::{before, before_irreflexive, before_total, before_transitive, precedes};

verus! {

/// A node with its degree.
#[derive(Debug)]
pub struct Hotspot {
    pub key: String,
    pub name: String,
    pub kind: String,
    pub degree: u128,
}

/// A node's key, name, kind and degree.
#[verifier::ext_equal]
pub struct Entry {
    pub key: Seq<char>,
    pub name: Seq<char>,
    pub kind: Seq<char>,
    pub degree: nat,
}

// ---------------------------------------------------------------------------
// Degrees
// ---------------------------------------------------------------------------

/// How many edge ends are at the key `k`. An edge from a node to itself has two.
pub open spec fn degree_of(edges: Seq<Edge>, k: Seq<char>) -> nat
    decreases edges.len(),
{
    if edges.len() == 0 {
        0
    } else {
        let e = edges.last();
        degree_of(edges.drop_last(), k) + (if e.src@ == k {
            1nat
        } else {
            0
        }) + (if e.dst@ == k {
            1nat
        } else {
            0
        })
    }
}

proof fn degree_bounded(edges: Seq<Edge>, k: Seq<char>)
    ensures
        degree_of(edges, k) <= 2 * edges.len(),
    decreases edges.len(),
{
    if edges.len() > 0 {
        degree_bounded(edges.drop_last(), k);
    }
}

fn add_one(m: &mut NameMap<u128>, k: &str)
    requires
        old(m)@.contains_key(k@) ==> old(m)@[k@] < u128::MAX,
    ensures
        final(m)@ == old(m)@.insert(
            k@,
            (if old(m)@.contains_key(k@) {
                (old(m)@[k@] + 1) as u128
            } else {
                1u128
            }),
        ),
{
    let n: u128 = match m.get(k) {
        Some(x) => *x,
        None => 0,
    };
    m.insert(k, n + 1);
}

/// `m` counts the ends of these edges.
spec fn counts(m: Map<Seq<char>, u128>, edges: Seq<Edge>) -> bool {
    forall|k: Seq<char>| #[trigger] counted(m, k) == degree_of(edges, k)
}

spec fn counted(m: Map<Seq<char>, u128>, k: Seq<char>) -> nat {
    if m.contains_key(k) {
        m[k] as nat
    } else {
        0
    }
}

fn degrees(edges: &Vec<Edge>) -> (m: NameMap<u128>)
    ensures
        counts(m@, edges@),
{
    let mut m: NameMap<u128> = NameMap::new();
    let mut i: usize = 0;
    while i < edges.len()
        invariant
            i <= edges@.len(),
            counts(m@, edges@.take(i as int)),
        decreases edges@.len() - i,
    {
        let e = &edges[i];
        let ghost was = m@;
        let ghost before = edges@.take(i as int);
        proof {
            degree_bounded(before, e.src@);
            degree_bounded(before, e.dst@);
            assert(counted(was, e.src@) == degree_of(before, e.src@));
            assert(counted(was, e.dst@) == degree_of(before, e.dst@));
        }
        add_one(&mut m, e.src.as_str());
        add_one(&mut m, e.dst.as_str());
        proof {
            let now = edges@.take(i + 1);
            assert(now.drop_last() =~= before);
            assert(now.last() == *e);
            assert forall|k: Seq<char>| #[trigger] counted(m@, k) == degree_of(now, k) by {
                assert(counted(was, k) == degree_of(before, k));
            }
        }
        i = i + 1;
    }
    assert(edges@.take(edges@.len() as int) =~= edges@);
    m
}

// ---------------------------------------------------------------------------
// Ranking
// ---------------------------------------------------------------------------

/// A node's entry.
pub open spec fn entry_of(edges: Seq<Edge>) -> spec_fn(Node) -> Entry {
    |n: Node| Entry { key: n.key@, name: n.name@, kind: n.kind@, degree: degree_of(edges, n.key@) }
}

/// A hotspot as an entry.
pub open spec fn entry(h: Hotspot) -> Entry {
    Entry { key: h.key@, name: h.name@, kind: h.kind@, degree: h.degree as nat }
}

/// The hotspots as entries.
pub open spec fn entries(s: Seq<Hotspot>) -> Seq<Entry> {
    s.map_values(|h: Hotspot| entry(h))
}

/// `a` ranks above `b`: a higher degree, and with equal degrees the earlier key.
pub open spec fn above(a: Entry, b: Entry) -> bool {
    a.degree > b.degree || (a.degree == b.degree && before(a.key, b.key))
}

/// No entry ranks above an earlier one.
pub open spec fn ranked(s: Seq<Entry>) -> bool {
    forall|i: int, j: int| 0 <= i < j < s.len() ==> !above(#[trigger] s[j], #[trigger] s[i])
}

/// `r` is the top of a ranking of all nodes.
pub open spec fn is_top(r: Seq<Entry>, all: Seq<Entry>, limit: int) -> bool {
    exists|full: Seq<Entry>| #[trigger]
        ranked(full) && full.to_multiset() == all.to_multiset() && r == full.take(
            if limit < full.len() {
                limit
            } else {
                full.len() as int
            },
        )
}

proof fn above_transitive(a: Entry, b: Entry, c: Entry)
    requires
        above(a, b),
        above(b, c),
    ensures
        above(a, c),
{
    if a.degree == b.degree && b.degree == c.degree {
        before_transitive(a.key, b.key, c.key);
    }
}

proof fn above_strict(a: Entry, b: Entry)
    requires
        above(a, b),
    ensures
        !above(b, a),
{
    if above(b, a) {
        above_transitive(a, b, a);
        before_irreflexive(a.key);
    }
}

/// Not to rank above is transitive.
proof fn not_above_chain(a: Entry, b: Entry, c: Entry)
    requires
        !above(b, a),
        !above(c, b),
    ensures
        !above(c, a),
{
    before_total(a.key, b.key);
    before_total(b.key, c.key);
    if above(c, a) {
        if a.degree == b.degree && b.degree == c.degree {
            if b.key == a.key {
            } else if c.key == b.key {
            } else {
                before_transitive(a.key, b.key, c.key);
                before_transitive(a.key, c.key, a.key);
                before_irreflexive(a.key);
            }
        }
    }
}

fn ranks_above(a: &Hotspot, b: &Hotspot) -> (r: bool)
    ensures
        r == above(entry(*a), entry(*b)),
{
    a.degree > b.degree || (a.degree == b.degree && precedes(a.key.as_str(), b.key.as_str()))
}

/// Puts a hotspot below those that do not rank under it.
fn place(v: &mut Vec<Hotspot>, h: Hotspot)
    requires
        ranked(entries(old(v)@)),
    ensures
        ranked(entries(final(v)@)),
        entries(final(v)@).to_multiset() == entries(old(v)@).to_multiset().insert(entry(h)),
{
    let ghost olds = entries(v@);
    let ghost x = entry(h);
    let mut i: usize = v.len();
    while i > 0 && ranks_above(&h, &v[i - 1])
        invariant
            i <= v@.len(),
            olds == entries(v@),
            v@ == old(v)@,
            x == entry(h),
            forall|j: int| i <= j < olds.len() ==> above(x, #[trigger] olds[j]),
        decreases i,
    {
        assert(olds[i - 1] == entry(v@[i - 1]));
        i = i - 1;
    }
    proof {
        if i > 0 {
            assert(olds[i - 1] == entry(v@[i - 1]));
            assert(!above(x, olds[i - 1]));
        }
        assert forall|j: int| 0 <= j < i implies !above(x, #[trigger] olds[j]) by {
            if j < i - 1 {
                assert(!above(olds[i - 1], olds[j]));
                not_above_chain(olds[j], olds[i - 1], x);
            }
        }
    }
    v.insert(i, h);
    proof {
        let news = entries(v@);
        assert(news =~= olds.insert(i as int, x));
        vstd::seq_lib::to_multiset_insert(olds, i as int, x);
        assert forall|a: int, b: int| 0 <= a < b < news.len() implies !above(
            #[trigger] news[b],
            #[trigger] news[a],
        ) by {
            if b < i {
                assert(!above(olds[b], olds[a]));
            } else if b == i {
                assert(!above(x, olds[a]));
            } else if a < i {
                assert(!above(olds[b - 1], olds[a]));
            } else if a == i {
                above_strict(x, olds[b - 1]);
            } else {
                assert(!above(olds[b - 1], olds[a - 1]));
            }
        }
    }
}

/// The top `limit` nodes by degree; nodes with equal degrees come by key.
pub fn compute_hotspots(nodes: &Vec<Node>, edges: &Vec<Edge>, limit: usize) -> (r: Vec<Hotspot>)
    ensures
        is_top(entries(r@), nodes@.map_values(entry_of(edges@)), limit as int),
{
    let m = degrees(edges);
    let ghost f = entry_of(edges@);
    let ghost all = nodes@.map_values(f);
    let mut full: Vec<Hotspot> = Vec::new();
    let mut i: usize = 0;
    proof {
        assert(entries(full@) =~= Seq::empty());
        assert(all.take(0) =~= Seq::empty());
    }
    while i < nodes.len()
        invariant
            i <= nodes@.len(),
            f == entry_of(edges@),
            all == nodes@.map_values(f),
            counts(m@, edges@),
            ranked(entries(full@)),
            entries(full@).to_multiset() == all.take(i as int).to_multiset(),
        decreases nodes@.len() - i,
    {
        let n = &nodes[i];
        let degree: u128 = match m.get(n.key.as_str()) {
            Some(d) => *d,
            None => 0,
        };
        let h = Hotspot {
            key: n.key.clone(),
            name: n.name.clone(),
            kind: n.kind.clone(),
            degree,
        };
        proof {
            assert(counted(m@, n.key@) == degree_of(edges@, n.key@));
            assert(entry(h) =~= all[i as int]);
            assert(all.take(i + 1) =~= all.take(i as int).push(all[i as int]));
            vstd::seq_lib::to_multiset_build(all.take(i as int), all[i as int]);
        }
        place(&mut full, h);
        i = i + 1;
    }
    assert(all.take(all.len() as int) =~= all);
    let ghost whole = entries(full@);
    if limit < full.len() {
        full.truncate(limit);
        assert(entries(full@) =~= whole.take(limit as int));
    } else {
        assert(entries(full@) =~= whole.take(whole.len() as int));
    }
    assert(ranked(whole));
    full
}

// ---------------------------------------------------------------------------
// Laws
// ---------------------------------------------------------------------------

/// No two entries have the same key.
pub open spec fn keys_distinct(s: Seq<Entry>) -> bool {
    forall|i: int, j: int| 0 <= i < j < s.len() ==> (#[trigger] s[i]).key != (#[trigger] s[j]).key
}

/// Where keys are distinct, the ranking is determined: the same limit always
/// gives the same hotspots.
pub proof fn a_ranking_is_determined(a: Seq<Entry>, b: Seq<Entry>, all: Seq<Entry>, limit: int)
    requires
        keys_distinct(all),
        limit >= 0,
        is_top(a, all, limit),
        is_top(b, all, limit),
    ensures
        a == b,
{
    let cut = |full: Seq<Entry>|
        if limit < full.len() {
            limit
        } else {
            full.len() as int
        };
    let fa = choose|full: Seq<Entry>| #[trigger]
        ranked(full) && full.to_multiset() == all.to_multiset() && a == full.take(cut(full));
    let fb = choose|full: Seq<Entry>| #[trigger]
        ranked(full) && full.to_multiset() == all.to_multiset() && b == full.take(cut(full));
    one_ranking(fa, fb, all);
}

proof fn one_ranking(a: Seq<Entry>, b: Seq<Entry>, all: Seq<Entry>)
    requires
        keys_distinct(all),
        ranked(a),
        ranked(b),
        a.to_multiset() == all.to_multiset(),
        b.to_multiset() == all.to_multiset(),
    ensures
        a == b,
    decreases a.len(),
{
    vstd::seq_lib::to_multiset_len(a);
    vstd::seq_lib::to_multiset_len(b);
    vstd::seq_lib::to_multiset_len(all);
    if a.len() == 0 {
        assert(a =~= b);
    } else {
        vstd::seq_lib::to_multiset_contains(a, a[0]);
        vstd::seq_lib::to_multiset_contains(b, a[0]);
        vstd::seq_lib::to_multiset_contains(all, a[0]);
        vstd::seq_lib::to_multiset_contains(a, b[0]);
        vstd::seq_lib::to_multiset_contains(b, b[0]);
        vstd::seq_lib::to_multiset_contains(all, b[0]);
        assert(a.contains(a[0]));
        assert(b.contains(b[0]));
        assert(b.contains(a[0]));
        assert(a.contains(b[0]));
        let i = choose|i: int| 0 <= i < b.len() && b[i] == a[0];
        let j = choose|j: int| 0 <= j < a.len() && a[j] == b[0];
        before_total(a[0].key, b[0].key);
        assert(!above(a[0], b[0])) by {
            if i > 0 {
                assert(!above(b[i], b[0]));
            } else {
                before_irreflexive(a[0].key);
            }
        }
        assert(!above(b[0], a[0])) by {
            if j > 0 {
                assert(!above(a[j], a[0]));
            } else {
                before_irreflexive(a[0].key);
            }
        }
        assert(a[0].key == b[0].key);
        let x = choose|x: int| 0 <= x < all.len() && all[x] == a[0];
        let y = choose|y: int| 0 <= y < all.len() && all[y] == b[0];
        assert(all.contains(a[0]));
        assert(all.contains(b[0]));
        assert(x == y);
        let rest = all.remove(x);
        vstd::seq_lib::to_multiset_remove(all, x);
        vstd::seq_lib::to_multiset_remove(a, 0);
        vstd::seq_lib::to_multiset_remove(b, 0);
        assert(a.remove(0) =~= a.drop_first());
        assert(b.remove(0) =~= b.drop_first());
        assert(keys_distinct(rest)) by {
            assert forall|p: int, q: int| 0 <= p < q < rest.len() implies (#[trigger] rest[p]).key
                != (#[trigger] rest[q]).key by {
                let p1 = if p < x {
                    p
                } else {
                    p + 1
                };
                let q1 = if q < x {
                    q
                } else {
                    q + 1
                };
                assert(all[p1].key != all[q1].key);
            }
        }
        one_ranking(a.drop_first(), b.drop_first(), rest);
        assert(a =~= seq![a[0]] + a.drop_first());
        assert(b =~= seq![b[0]] + b.drop_first());
    }
}

/// Every edge counts once at each of its ends, whichever way it points.
pub proof fn direction_does_not_count(edges: Seq<Edge>, turned: Seq<Edge>, k: Seq<char>)
    requires
        edges.len() == turned.len(),
        forall|i: int|
            #![trigger edges[i]]
            0 <= i < edges.len() ==> edges[i].src@ == turned[i].dst@ && edges[i].dst@
                == turned[i].src@,
    ensures
        degree_of(edges, k) == degree_of(turned, k),
    decreases edges.len(),
{
    if edges.len() > 0 {
        let n = edges.len() - 1;
        assert(edges[n].src@ == turned[n].dst@);
        direction_does_not_count(edges.drop_last(), turned.drop_last(), k);
    }
}

/// A node's degree is how many edges start at it and how many end there, of
/// whatever kind; one from a node to itself does both.
pub proof fn a_degree_counts_both_ends(edges: Seq<Edge>, k: Seq<char>)
    ensures
        degree_of(edges, k) == edges.filter(|e: Edge| e.src@ == k).len() + edges.filter(
            |e: Edge| e.dst@ == k,
        ).len(),
    decreases edges.len(),
{
    reveal(Seq::filter);
    if edges.len() > 0 {
        a_degree_counts_both_ends(edges.drop_last(), k);
    }
}

/// The hotspot is one of the nodes, with its own name and kind and its degree.
pub open spec fn shows_a_node(h: Hotspot, nodes: Seq<Node>, edges: Seq<Edge>) -> bool {
    exists|k: int|
        0 <= k < nodes.len() && h.key@ == (#[trigger] nodes[k]).key@ && h.name@ == nodes[k].name@
            && h.kind@ == nodes[k].kind@ && h.degree == degree_of(edges, nodes[k].key@)
}

/// The hotspots are nodes with their own names, kinds and degrees; as many as
/// were asked for and there are; the better connected first, and among equals the
/// earlier key; and no node that was left out is better connected than one that
/// was not.
pub proof fn hotspots_are_the_best_connected(
    r: Seq<Hotspot>,
    nodes: Seq<Node>,
    edges: Seq<Edge>,
    limit: int,
)
    requires
        is_top(entries(r), nodes.map_values(entry_of(edges)), limit),
        limit >= 0,
    ensures
        r.len() == (if limit < nodes.len() {
            limit
        } else {
            nodes.len() as int
        }),
        forall|i: int| 0 <= i < r.len() ==> shows_a_node(#[trigger] r[i], nodes, edges),
        forall|i: int, j: int|
            #![trigger r[i], r[j]]
            0 <= i < j < r.len() ==> r[i].degree > r[j].degree || (r[i].degree == r[j].degree
                && !before(r[j].key@, r[i].key@)),
        forall|k: int|
            #![trigger nodes[k]]
            0 <= k < nodes.len() ==> (exists|i: int|
                0 <= i < r.len() && (#[trigger] r[i]).key@ == nodes[k].key@) || (forall|i: int|
                0 <= i < r.len() ==> (#[trigger] r[i]).degree > degree_of(edges, nodes[k].key@) || (
                r[i].degree == degree_of(edges, nodes[k].key@) && !before(
                    nodes[k].key@,
                    r[i].key@,
                ))),
{
    let f = entry_of(edges);
    let all = nodes.map_values(f);
    let top = entries(r);
    let full = choose|full: Seq<Entry>| #[trigger]
        ranked(full) && full.to_multiset() == all.to_multiset() && top == full.take(
            if limit < full.len() {
                limit
            } else {
                full.len() as int
            },
        );
    vstd::seq_lib::to_multiset_len(full);
    vstd::seq_lib::to_multiset_len(all);
    assert(top.len() == r.len());
    assert forall|i: int| 0 <= i < r.len() implies shows_a_node(#[trigger] r[i], nodes, edges) by {
        assert(top[i] == entry(r[i]));
        assert(full[i] == top[i]);
        assert(full.contains(full[i]));
        vstd::seq_lib::to_multiset_contains(full, full[i]);
        vstd::seq_lib::to_multiset_contains(all, full[i]);
        let k = choose|k: int| 0 <= k < all.len() && all[k] == full[i];
        assert(all[k] == f(nodes[k]));
        assert(r[i].key@ == nodes[k].key@);
    }
    assert forall|i: int, j: int|
        #![trigger r[i], r[j]]
        0 <= i < j < r.len() implies r[i].degree > r[j].degree || (r[i].degree == r[j].degree
        && !before(r[j].key@, r[i].key@)) by {
        assert(top[i] == entry(r[i]) && top[j] == entry(r[j]));
        assert(full[i] == top[i] && full[j] == top[j]);
        assert(!above(full[j], full[i]));
    }
    assert forall|k: int|
        #![trigger nodes[k]]
        0 <= k < nodes.len() implies (exists|i: int|
        0 <= i < r.len() && (#[trigger] r[i]).key@ == nodes[k].key@) || (forall|i: int|
        0 <= i < r.len() ==> (#[trigger] r[i]).degree > degree_of(edges, nodes[k].key@) || (
        r[i].degree == degree_of(edges, nodes[k].key@) && !before(nodes[k].key@, r[i].key@))) by {
        assert(all[k] == f(nodes[k]));
        assert(all.contains(all[k]));
        vstd::seq_lib::to_multiset_contains(all, all[k]);
        vstd::seq_lib::to_multiset_contains(full, all[k]);
        let x = choose|x: int| 0 <= x < full.len() && full[x] == all[k];
        if x < r.len() {
            assert(top[x] == entry(r[x]));
            assert(r[x].key@ == nodes[k].key@);
        } else {
            assert forall|i: int| 0 <= i < r.len() implies (#[trigger] r[i]).degree > degree_of(
                edges,
                nodes[k].key@,
            ) || (r[i].degree == degree_of(edges, nodes[k].key@) && !before(
                nodes[k].key@,
                r[i].key@,
            )) by {
                assert(top[i] == entry(r[i]));
                assert(full[i] == top[i]);
                assert(!above(full[x], full[i]));
            }
        }
    }
}

} // verus!
