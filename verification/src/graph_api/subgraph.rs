//! The part of a graph around one node.
use vstd::prelude::*;

use crate::graph::{Edge, Node};
use crate::names::{filter_keeps_order, increasing, insert_name, lists, NameMap};
use crate::seqs::{filter_step, filtered};
use crate::text::{
    before, before_irreflexive, before_total, before_transitive, copy_all, is_among, precedes,
    same, views,
};

verus! {

/// A part of a graph: its nodes, the root first, and the edges among them.
#[derive(Debug)]
pub struct Subgraph {
    pub nodes: Vec<Node>,
    pub edges: Vec<Edge>,
}

// ---------------------------------------------------------------------------
// Reach
// ---------------------------------------------------------------------------

/// Some edge joins `a` and `b`, in either direction.
pub open spec fn joined(edges: Seq<Edge>, a: Seq<char>, b: Seq<char>) -> bool {
    exists|i: int| 0 <= i < edges.len() && joins(#[trigger] edges[i], a, b)
}

/// The edge joins `a` and `b`, in either direction.
pub open spec fn joins(e: Edge, a: Seq<char>, b: Seq<char>) -> bool {
    (e.src@ == a && e.dst@ == b) || (e.src@ == b && e.dst@ == a)
}

/// The keys one hop from `from`, and those of `from`.
pub open spec fn one_more(edges: Seq<Edge>, from: Set<Seq<char>>) -> Set<Seq<char>> {
    Set::new(
        |k: Seq<char>|
            from.contains(k) || exists|j: Seq<char>|
                from.contains(j) && #[trigger] joined(edges, j, k),
    )
}

/// The keys within `n` hops of `root`.
pub open spec fn reach(edges: Seq<Edge>, root: Seq<char>, n: nat) -> Set<Seq<char>>
    decreases n,
{
    if n == 0 {
        set![root]
    } else {
        one_more(edges, reach(edges, root, (n - 1) as nat))
    }
}

/// `to` holds `from` and the keys one hop from it by the first `i` edges.
spec fn spread(to: Seq<Seq<char>>, from: Seq<Seq<char>>, edges: Seq<Edge>, i: int) -> bool {
    &&& increasing(to)
    &&& forall|k: Seq<char>| #[trigger]
        to.contains(k) <==> from.contains(k) || exists|e: int|
            0 <= e < i && one_end(#[trigger] edges[e], from, k)
}

/// The edge leads from a key of `from` to `k`.
spec fn one_end(e: Edge, from: Seq<Seq<char>>, k: Seq<char>) -> bool {
    (from.contains(e.src@) && e.dst@ == k) || (from.contains(e.dst@) && e.src@ == k)
}

proof fn spread_is_one_more(
    to: Seq<Seq<char>>,
    from: Seq<Seq<char>>,
    edges: Seq<Edge>,
    set: Set<Seq<char>>,
)
    requires
        lists(from, set),
        spread(to, from, edges, edges.len() as int),
    ensures
        lists(to, one_more(edges, set)),
{
    assert forall|k: Seq<char>| #[trigger] to.contains(k) <==> one_more(edges, set).contains(k) by {
        if to.contains(k) && !from.contains(k) {
            let e = choose|e: int| 0 <= e < edges.len() && one_end(#[trigger] edges[e], from, k);
            if from.contains(edges[e].src@) && edges[e].dst@ == k {
                assert(joins(edges[e], edges[e].src@, k));
                assert(joined(edges, edges[e].src@, k));
                assert(set.contains(edges[e].src@));
            } else {
                assert(joins(edges[e], edges[e].dst@, k));
                assert(joined(edges, edges[e].dst@, k));
                assert(set.contains(edges[e].dst@));
            }
        }
        if from.contains(k) {
            assert(set.contains(k));
        }
        if one_more(edges, set).contains(k) {
            if set.contains(k) {
                assert(from.contains(k));
            } else {
                let j = choose|j: Seq<char>| set.contains(j) && #[trigger] joined(edges, j, k);
                assert(from.contains(j));
                let e = choose|e: int| 0 <= e < edges.len() && joins(#[trigger] edges[e], j, k);
                assert(one_end(edges[e], from, k));
            }
        }
    }
}

/// The keys of `from` and those one hop from it.
fn spread_once(edges: &Vec<Edge>, from: &Vec<String>) -> (r: Vec<String>)
    requires
        increasing(views(from@)),
    ensures
        spread(views(r@), views(from@), edges@, edges@.len() as int),
{
    let ghost base = views(from@);
    let mut r = copy_all(from);
    let mut i: usize = 0;
    while i < edges.len()
        invariant
            i <= edges@.len(),
            base == views(from@),
            spread(views(r@), base, edges@, i as int),
        decreases edges@.len() - i,
    {
        let ghost was = views(r@);
        let e = &edges[i];
        let near_src = is_among(from, e.src.as_str());
        let near_dst = is_among(from, e.dst.as_str());
        if near_src {
            insert_name(&mut r, e.dst.as_str());
        }
        if near_dst {
            insert_name(&mut r, e.src.as_str());
        }
        proof {
            let now = views(r@);
            assert forall|k: Seq<char>| #[trigger]
                now.contains(k) <==> base.contains(k) || exists|x: int|
                    0 <= x < i + 1 && one_end(#[trigger] edges@[x], base, k) by {
                assert(was.contains(k) <==> base.contains(k) || exists|x: int|
                    0 <= x < i && one_end(#[trigger] edges@[x], base, k));
                if now.contains(k) && !was.contains(k) {
                    assert(one_end(edges@[i as int], base, k));
                }
                if exists|x: int| 0 <= x < i + 1 && one_end(#[trigger] edges@[x], base, k) {
                    let x = choose|x: int| 0 <= x < i + 1 && one_end(#[trigger] edges@[x], base, k);
                    if x < i {
                        assert(was.contains(k));
                    }
                }
            }
        }
        i = i + 1;
    }
    r
}

// ---------------------------------------------------------------------------
// Edges in order
// ---------------------------------------------------------------------------

/// `a` comes before `b`: by source, then target, then kind.
pub open spec fn edge_before(a: Edge, b: Edge) -> bool {
    ||| before(a.src@, b.src@)
    ||| a.src@ == b.src@ && before(a.dst@, b.dst@)
    ||| a.src@ == b.src@ && a.dst@ == b.dst@ && before(a.kind@, b.kind@)
}

/// The edges agree in source, target and kind.
pub open spec fn same_ends(a: Edge, b: Edge) -> bool {
    a.src@ == b.src@ && a.dst@ == b.dst@ && a.kind@ == b.kind@
}

proof fn edge_before_total(a: Edge, b: Edge)
    ensures
        edge_before(a, b) || edge_before(b, a) || same_ends(a, b),
{
    before_total(a.src@, b.src@);
    before_total(a.dst@, b.dst@);
    before_total(a.kind@, b.kind@);
}

proof fn edge_before_strict(a: Edge, b: Edge)
    requires
        edge_before(a, b),
    ensures
        !same_ends(a, b),
{
    before_irreflexive(a.src@);
    before_irreflexive(a.dst@);
    before_irreflexive(a.kind@);
}

proof fn edge_before_transitive(a: Edge, b: Edge, c: Edge)
    requires
        edge_before(a, b),
        edge_before(b, c),
    ensures
        edge_before(a, c),
{
    if before(a.src@, b.src@) && before(b.src@, c.src@) {
        before_transitive(a.src@, b.src@, c.src@);
    } else if a.src@ == b.src@ && b.src@ == c.src@ {
        if before(a.dst@, b.dst@) && before(b.dst@, c.dst@) {
            before_transitive(a.dst@, b.dst@, c.dst@);
        } else if a.dst@ == b.dst@ && b.dst@ == c.dst@ {
            if before(a.kind@, b.kind@) && before(b.kind@, c.kind@) {
                before_transitive(a.kind@, b.kind@, c.kind@);
            }
        }
    }
    if a.src@ == b.src@ && b.src@ == c.src@ && a.dst@ == b.dst@ && b.dst@ == c.dst@ {
        before_irreflexive(a.src@);
        before_irreflexive(a.dst@);
    }
    if a.src@ == b.src@ {
        before_irreflexive(a.src@);
    }
    if b.src@ == c.src@ {
        before_irreflexive(b.src@);
    }
    if a.dst@ == b.dst@ {
        before_irreflexive(a.dst@);
    }
    if b.dst@ == c.dst@ {
        before_irreflexive(b.dst@);
    }
}

fn precedes_edge(a: &Edge, b: &Edge) -> (r: bool)
    ensures
        r == edge_before(*a, *b),
{
    precedes(a.src.as_str(), b.src.as_str()) || (same(a.src.as_str(), b.src.as_str()) && (precedes(
        a.dst.as_str(),
        b.dst.as_str(),
    ) || (same(a.dst.as_str(), b.dst.as_str()) && precedes(a.kind.as_str(), b.kind.as_str()))))
}

fn same_edge(a: &Edge, b: &Edge) -> (r: bool)
    ensures
        r == same_ends(*a, *b),
{
    same(a.src.as_str(), b.src.as_str()) && same(a.dst.as_str(), b.dst.as_str()) && same(
        a.kind.as_str(),
        b.kind.as_str(),
    )
}

/// Each edge comes before every later one.
pub open spec fn edges_ordered(s: Seq<Edge>) -> bool {
    forall|i: int, j: int| 0 <= i < j < s.len() ==> edge_before(#[trigger] s[i], #[trigger] s[j])
}

/// Puts an edge in its place, unless one with the same ends is there.
fn insert_edge(v: &mut Vec<Edge>, e: &Edge)
    requires
        edges_ordered(old(v)@),
    ensures
        edges_ordered(final(v)@),
        (exists|i: int| 0 <= i < old(v)@.len() && same_ends(#[trigger] old(v)@[i], *e))
            ==> final(v)@ == old(v)@,
        !(exists|i: int| 0 <= i < old(v)@.len() && same_ends(#[trigger] old(v)@[i], *e)) ==> forall|
            x: Edge,
        | #[trigger]
            final(v)@.contains(x) <==> old(v)@.contains(x) || x == *e,
{
    let ghost olds = v@;
    let mut i: usize = 0;
    while i < v.len() && precedes_edge(&v[i], e)
        invariant
            i <= v@.len(),
            v@ == olds,
            forall|j: int| 0 <= j < i ==> edge_before(#[trigger] olds[j], *e),
        decreases v@.len() - i,
    {
        i = i + 1;
    }
    if i < v.len() && same_edge(&v[i], e) {
        assert(same_ends(olds[i as int], *e));
        return;
    }
    proof {
        if i < olds.len() {
            edge_before_total(olds[i as int], *e);
        }
        assert forall|j: int| i <= j < olds.len() implies edge_before(*e, #[trigger] olds[j]) by {
            if j > i {
                assert(edge_before(olds[i as int], olds[j]));
                edge_before_transitive(*e, olds[i as int], olds[j]);
            }
        }
        assert forall|j: int| 0 <= j < olds.len() implies !same_ends(#[trigger] olds[j], *e) by {
            if j < i {
                edge_before_strict(olds[j], *e);
            } else {
                edge_before_strict(*e, olds[j]);
            }
        }
    }
    let own = e.clone();
    v.insert(i, own);
    proof {
        let news = v@;
        assert(news =~= olds.insert(i as int, *e));
        assert forall|a: int, b: int| 0 <= a < b < news.len() implies edge_before(
            #[trigger] news[a],
            #[trigger] news[b],
        ) by {
            if b < i {
                assert(edge_before(olds[a], olds[b]));
            } else if b == i {
                assert(edge_before(olds[a], *e));
            } else if a < i {
                assert(edge_before(olds[a], olds[b - 1]));
            } else if a == i {
                assert(edge_before(*e, olds[b - 1]));
            } else {
                assert(edge_before(olds[a - 1], olds[b - 1]));
            }
        }
        assert forall|x: Edge| #[trigger] news.contains(x) <==> olds.contains(x) || x == *e by {
            if news.contains(x) {
                let a = choose|a: int| 0 <= a < news.len() && news[a] == x;
                if a < i {
                    assert(olds[a] == x);
                } else if a > i {
                    assert(olds[a - 1] == x);
                }
            }
            if olds.contains(x) {
                let a = choose|a: int| 0 <= a < olds.len() && olds[a] == x;
                if a < i {
                    assert(news[a] == x);
                } else {
                    assert(news[a + 1] == x);
                }
            }
            assert(news[i as int] == *e);
        }
    }
}

// ---------------------------------------------------------------------------
// The neighbourhood
// ---------------------------------------------------------------------------

/// An end of the edge is among `keys`.
pub open spec fn touches(e: Edge, keys: Set<Seq<char>>) -> bool {
    keys.contains(e.src@) || keys.contains(e.dst@)
}

/// No earlier edge has the same ends as the one at `i`.
pub open spec fn is_first(edges: Seq<Edge>, i: int) -> bool {
    0 <= i < edges.len() && forall|j: int|
        0 <= j < i ==> !same_ends(#[trigger] edges[j], edges[i])
}

/// `out` holds, in order, the edges that touch `inner`, and of several with the
/// same ends the first.
pub open spec fn edges_around(out: Seq<Edge>, edges: Seq<Edge>, inner: Set<Seq<char>>) -> bool {
    &&& edges_ordered(out)
    &&& forall|x: Edge| #[trigger]
        out.contains(x) <==> exists|i: int|
            #[trigger] is_first(edges, i) && edges[i] == x && touches(x, inner)
}

/// The key has a node and is not the root.
pub open spec fn shown_beside(nodes: Map<Seq<char>, Node>, root: Seq<char>) -> spec_fn(
    Seq<char>,
) -> bool {
    |k: Seq<char>| k != root && nodes.contains_key(k)
}

/// The keys within reach that have a node, but for the root.
pub open spec fn others(
    nodes: Map<Seq<char>, Node>,
    edges: Seq<Edge>,
    root: Seq<char>,
    depth: nat,
) -> Set<Seq<char>> {
    Set::new(
        |k: Seq<char>|
            reach(edges, root, depth).contains(k) && k != root && nodes.contains_key(k),
    )
}

/// The nodes of these keys.
pub open spec fn nodes_of(nodes: Map<Seq<char>, Node>, keys: Seq<Seq<char>>) -> Seq<Node> {
    keys.map_values(|k: Seq<char>| nodes[k])
}

/// The keys that a neighbourhood of this depth looks out from.
pub open spec fn inner_of(edges: Seq<Edge>, root: Seq<char>, depth: nat) -> Set<Seq<char>> {
    if depth == 0 {
        Set::empty()
    } else {
        reach(edges, root, (depth - 1) as nat)
    }
}

/// `g` is the neighbourhood of `root`: the root first, then the other nodes
/// within `depth` hops by key, and the edges met on the way.
pub open spec fn is_neighbourhood(
    g: Subgraph,
    nodes: Map<Seq<char>, Node>,
    edges: Seq<Edge>,
    root: Seq<char>,
    depth: nat,
) -> bool {
    &&& exists|rest: Seq<Seq<char>>| #[trigger]
        lists(rest, others(nodes, edges, root, depth)) && g.nodes@ == nodes_of(
            nodes,
            seq![root] + rest,
        )
    &&& edges_around(g.edges@, edges, inner_of(edges, root, depth))
}

proof fn first_of_its_kind(edges: Seq<Edge>, i: int) -> (k: int)
    requires
        0 <= i < edges.len(),
    ensures
        0 <= k <= i,
        is_first(edges, k),
        same_ends(edges[k], edges[i]),
    decreases i,
{
    if is_first(edges, i) {
        i
    } else {
        let j = choose|j: int| 0 <= j < i && same_ends(#[trigger] edges[j], edges[i]);
        first_of_its_kind(edges, j)
    }
}

fn collect_edges(edges: &Vec<Edge>, inner: &Vec<String>, Ghost(set): Ghost<Set<Seq<char>>>) -> (r:
    Vec<Edge>)
    requires
        lists(views(inner@), set),
    ensures
        edges_around(r@, edges@, set),
{
    let mut r: Vec<Edge> = Vec::new();
    let mut i: usize = 0;
    while i < edges.len()
        invariant
            i <= edges@.len(),
            lists(views(inner@), set),
            edges_ordered(r@),
            forall|x: Edge| #[trigger]
                r@.contains(x) <==> exists|k: int|
                    k < i && #[trigger] is_first(edges@, k) && edges@[k] == x && touches(x, set),
        decreases edges@.len() - i,
    {
        let e = &edges[i];
        let ghost was = r@;
        let near = is_among(inner, e.src.as_str()) || is_among(inner, e.dst.as_str());
        assert(near == touches(*e, set)) by {
            assert(views(inner@).contains(e.src@) <==> set.contains(e.src@));
            assert(views(inner@).contains(e.dst@) <==> set.contains(e.dst@));
        }
        if near {
            insert_edge(&mut r, e);
        }
        proof {
            let there = exists|a: int| 0 <= a < was.len() && same_ends(#[trigger] was[a], *e);
            if near {
                if there {
                    let a = choose|a: int| 0 <= a < was.len() && same_ends(#[trigger] was[a], *e);
                    assert(was.contains(was[a]));
                    let k = choose|k: int|
                        k < i && #[trigger] is_first(edges@, k) && edges@[k] == was[a] && touches(
                            was[a],
                            set,
                        );
                    assert(same_ends(edges@[k], edges@[i as int]));
                    assert(!is_first(edges@, i as int));
                } else {
                    let k = first_of_its_kind(edges@, i as int);
                    if k < i {
                        assert(touches(edges@[k], set));
                        assert(was.contains(edges@[k]));
                        let a = choose|a: int| 0 <= a < was.len() && was[a] == edges@[k];
                        assert(same_ends(was[a], *e));
                    }
                    assert(is_first(edges@, i as int));
                }
            }
            assert forall|x: Edge| #[trigger] r@.contains(x) <==> exists|k: int|
                k < i + 1 && #[trigger] is_first(edges@, k) && edges@[k] == x && touches(
                    x,
                    set,
                ) by {
                assert(was.contains(x) <==> exists|k: int|
                    k < i && #[trigger] is_first(edges@, k) && edges@[k] == x && touches(x, set));
                if exists|k: int|
                    k < i + 1 && #[trigger] is_first(edges@, k) && edges@[k] == x && touches(
                        x,
                        set,
                    ) {
                    let k = choose|k: int|
                        k < i + 1 && #[trigger] is_first(edges@, k) && edges@[k] == x && touches(
                            x,
                            set,
                        );
                    if k < i {
                        assert(was.contains(x));
                    }
                }
            }
        }
        i = i + 1;
    }
    assert forall|x: Edge| #[trigger] r@.contains(x) <==> exists|k: int|
        #[trigger] is_first(edges@, k) && edges@[k] == x && touches(x, set) by {
        if exists|k: int| #[trigger] is_first(edges@, k) && edges@[k] == x && touches(x, set) {
            let k = choose|k: int|
                #[trigger] is_first(edges@, k) && edges@[k] == x && touches(x, set);
            assert(k < i);
        }
    }
    r
}

fn collect_nodes(nodes: &NameMap<Node>, root: &str, reached: &Vec<String>) -> (r: Vec<Node>)
    requires
        nodes@.contains_key(root@),
    ensures
        r@ == nodes_of(
            nodes@,
            seq![root@] + views(reached@).filter(shown_beside(nodes@, root@)),
        ),
{
    let ghost p = shown_beside(nodes@, root@);
    let ghost all = views(reached@);
    let mut r: Vec<Node> = Vec::new();
    if let Some(n) = nodes.get(root) {
        r.push(n.clone());
    }
    let mut i: usize = 0;
    proof {
        reveal(Seq::filter);
        assert(r@ =~= nodes_of(nodes@, seq![root@] + all.take(0).filter(p)));
    }
    while i < reached.len()
        invariant
            i <= reached@.len(),
            all == views(reached@),
            p == shown_beside(nodes@, root@),
            r@ == nodes_of(nodes@, seq![root@] + all.take(i as int).filter(p)),
        decreases reached@.len() - i,
    {
        proof {
            filter_step(all, i as int, p);
        }
        let k = reached[i].as_str();
        if !same(k, root) {
            if let Some(n) = nodes.get(k) {
                let ghost before = all.take(i as int).filter(p);
                r.push(n.clone());
                assert(r@ =~= nodes_of(nodes@, seq![root@] + before.push(k@)));
            }
        }
        i = i + 1;
    }
    assert(all.take(all.len() as int) =~= all);
    r
}

/// The neighbourhood of `root`, or nothing where there is no such node.
pub fn neighbourhood_subgraph(
    nodes: &NameMap<Node>,
    edges: &Vec<Edge>,
    root: &str,
    depth: usize,
) -> (r: Option<Subgraph>)
    ensures
        r is Some <==> nodes@.contains_key(root@),
        r matches Some(g) ==> is_neighbourhood(g, nodes@, edges@, root@, depth as nat),
{
    match nodes.get(root) {
        Some(_) => {},
        None => {
            return None;
        },
    }
    let mut inner: Vec<String> = Vec::new();
    let mut reached: Vec<String> = Vec::new();
    reached.push(root.to_owned());
    proof {
        assert(views(inner@) =~= Seq::empty());
        assert(views(reached@) =~= seq![root@]);
        assert(lists(views(inner@), Set::empty()));
        assert forall|k: Seq<char>| #[trigger] views(reached@).contains(k) <==> set![root@].contains(
            k,
        ) by {
            assert(views(reached@)[0] == root@);
        }
    }
    let mut i: usize = 0;
    while i < depth
        invariant
            i <= depth,
            lists(views(reached@), reach(edges@, root@, i as nat)),
            lists(views(inner@), inner_of(edges@, root@, i as nat)),
        decreases depth - i,
    {
        let next = spread_once(edges, &reached);
        proof {
            spread_is_one_more(
                views(next@),
                views(reached@),
                edges@,
                reach(edges@, root@, i as nat),
            );
        }
        inner = reached;
        reached = next;
        i = i + 1;
    }
    let ghost p = shown_beside(nodes@, root@);
    let ghost rest = views(reached@).filter(p);
    let found = collect_nodes(nodes, root, &reached);
    let around = collect_edges(edges, &inner, Ghost(inner_of(edges@, root@, depth as nat)));
    proof {
        filter_keeps_order(views(reached@), p);
        filtered(views(reached@), p);
        let set = others(nodes@, edges@, root@, depth as nat);
        assert forall|k: Seq<char>| #[trigger] rest.contains(k) <==> set.contains(k) by {
            if rest.contains(k) {
                let a = choose|a: int| 0 <= a < rest.len() && rest[a] == k;
                assert(p(rest[a]));
                assert(views(reached@).contains(k));
            }
            if set.contains(k) {
                assert(views(reached@).contains(k));
                let a = choose|a: int| 0 <= a < views(reached@).len() && views(reached@)[a] == k;
                assert(p(views(reached@)[a]));
            }
        }
        assert(lists(rest, set));
    }
    Some(Subgraph { nodes: found, edges: around })
}

// ---------------------------------------------------------------------------
// Laws
// ---------------------------------------------------------------------------

/// A deeper neighbourhood holds a shallower one.
pub proof fn deeper_reaches_further(edges: Seq<Edge>, root: Seq<char>, n: nat, m: nat, k: Seq<char>)
    requires
        n <= m,
        reach(edges, root, n).contains(k),
    ensures
        reach(edges, root, m).contains(k),
    decreases m,
{
    if n < m {
        deeper_reaches_further(edges, root, n, (m - 1) as nat, k);
    }
}

/// The root leads its neighbourhood.
pub proof fn the_root_comes_first(
    g: Subgraph,
    nodes: Map<Seq<char>, Node>,
    edges: Seq<Edge>,
    root: Seq<char>,
    depth: nat,
)
    requires
        is_neighbourhood(g, nodes, edges, root, depth),
    ensures
        g.nodes@.len() > 0,
        g.nodes@[0] == nodes[root],
{
    let rest = choose|rest: Seq<Seq<char>>| #[trigger]
        lists(rest, others(nodes, edges, root, depth)) && g.nodes@ == nodes_of(
            nodes,
            seq![root] + rest,
        );
    assert((seq![root] + rest)[0] == root);
}

/// Both ends of every edge of a neighbourhood are within its reach.
pub proof fn edges_stay_within_reach(
    g: Subgraph,
    nodes: Map<Seq<char>, Node>,
    edges: Seq<Edge>,
    root: Seq<char>,
    depth: nat,
    i: int,
)
    requires
        is_neighbourhood(g, nodes, edges, root, depth),
        0 <= i < g.edges@.len(),
    ensures
        reach(edges, root, depth).contains(g.edges@[i].src@),
        reach(edges, root, depth).contains(g.edges@[i].dst@),
{
    let e = g.edges@[i];
    let inner = inner_of(edges, root, depth);
    assert(g.edges@.contains(e));
    let k = choose|k: int| #[trigger] is_first(edges, k) && edges[k] == e && touches(e, inner);
    assert(depth > 0);
    if inner.contains(e.src@) {
        assert(joins(edges[k], e.src@, e.dst@));
        assert(joined(edges, e.src@, e.dst@));
    } else {
        assert(joins(edges[k], e.dst@, e.src@));
        assert(joined(edges, e.dst@, e.src@));
    }
}

/// A neighbourhood is determined: two of them, of the same root and depth, are
/// the same.
pub proof fn a_neighbourhood_is_determined(
    a: Subgraph,
    b: Subgraph,
    nodes: Map<Seq<char>, Node>,
    edges: Seq<Edge>,
    root: Seq<char>,
    depth: nat,
)
    requires
        is_neighbourhood(a, nodes, edges, root, depth),
        is_neighbourhood(b, nodes, edges, root, depth),
    ensures
        a.nodes@ == b.nodes@,
        a.edges@ == b.edges@,
{
    let set = others(nodes, edges, root, depth);
    let ra = choose|rest: Seq<Seq<char>>| #[trigger]
        lists(rest, set) && a.nodes@ == nodes_of(nodes, seq![root] + rest);
    let rb = choose|rest: Seq<Seq<char>>| #[trigger]
        lists(rest, set) && b.nodes@ == nodes_of(nodes, seq![root] + rest);
    crate::names::lists_unique(ra, rb, set);
    same_ordered_edges(a.edges@, b.edges@);
}

proof fn same_ordered_edges(a: Seq<Edge>, b: Seq<Edge>)
    requires
        edges_ordered(a),
        edges_ordered(b),
        forall|x: Edge| #[trigger] a.contains(x) <==> b.contains(x),
    ensures
        a == b,
    decreases a.len(),
{
    if a.len() == 0 {
        if b.len() > 0 {
            assert(b.contains(b[0]));
            assert(a.contains(b[0]));
        }
        assert(a =~= b);
    } else {
        assert(a.contains(a[0]));
        let i = choose|i: int| 0 <= i < b.len() && b[i] == a[0];
        assert(b.contains(b[0]));
        assert(a.contains(b[0]));
        let j = choose|j: int| 0 <= j < a.len() && a[j] == b[0];
        if i > 0 && j > 0 {
            assert(edge_before(b[0], b[i]));
            assert(edge_before(a[0], a[j]));
            edge_before_transitive(a[0], a[j], a[0]);
            edge_before_strict(a[0], a[0]);
        }
        assert(a[0] == b[0]);
        let ta = a.drop_first();
        let tb = b.drop_first();
        assert forall|x: Edge| #[trigger] ta.contains(x) <==> tb.contains(x) by {
            if ta.contains(x) {
                ordered_tail(a, b, x);
            }
            if tb.contains(x) {
                ordered_tail(b, a, x);
            }
        }
        same_ordered_edges(ta, tb);
        assert(a =~= seq![a[0]] + ta);
        assert(b =~= seq![b[0]] + tb);
    }
}

proof fn ordered_tail(a: Seq<Edge>, b: Seq<Edge>, x: Edge)
    requires
        a.len() > 0,
        b.len() > 0,
        a[0] == b[0],
        edges_ordered(a),
        forall|y: Edge| #[trigger] a.contains(y) <==> b.contains(y),
        a.drop_first().contains(x),
    ensures
        b.drop_first().contains(x),
{
    let t = a.drop_first();
    let i = choose|i: int| 0 <= i < t.len() && t[i] == x;
    assert(a[i + 1] == x);
    assert(a.contains(x));
    edge_before_strict(a[0], a[i + 1]);
    let k = choose|k: int| 0 <= k < b.len() && b[k] == x;
    assert(b.drop_first()[k - 1] == x);
}

/// Some edge leads from `a` to `b`, or from `b` to `a`.
pub open spec fn neighbours(edges: Seq<Edge>, a: Seq<char>, b: Seq<char>) -> bool {
    ||| exists|i: int|
        0 <= i < edges.len() && (#[trigger] edges[i]).src@ == a && edges[i].dst@ == b
    ||| exists|i: int|
        0 <= i < edges.len() && (#[trigger] edges[i]).src@ == b && edges[i].dst@ == a
}

/// `w` walks from key to key along edges, whichever way they point.
pub open spec fn is_walk(edges: Seq<Edge>, w: Seq<Seq<char>>) -> bool {
    w.len() > 0 && forall|i: int|
        #![trigger w[i]]
        0 <= i < w.len() - 1 ==> neighbours(edges, w[i], w[i + 1])
}

/// A walk of at most `depth` steps leads from `root` to `k`.
pub open spec fn within(edges: Seq<Edge>, root: Seq<char>, depth: nat, k: Seq<char>) -> bool {
    exists|w: Seq<Seq<char>>| #[trigger]
        is_walk(edges, w) && w[0] == root && w.last() == k && w.len() <= depth + 1
}

proof fn neighbours_are_joined(edges: Seq<Edge>, a: Seq<char>, b: Seq<char>)
    ensures
        joined(edges, a, b) == neighbours(edges, a, b),
{
    if joined(edges, a, b) {
        let i = choose|i: int| 0 <= i < edges.len() && joins(#[trigger] edges[i], a, b);
        assert(joins(edges[i], a, b));
    }
    if exists|i: int| 0 <= i < edges.len() && (#[trigger] edges[i]).src@ == a && edges[i].dst@ == b {
        let i = choose|i: int|
            0 <= i < edges.len() && (#[trigger] edges[i]).src@ == a && edges[i].dst@ == b;
        assert(joins(edges[i], a, b));
    }
    if exists|i: int| 0 <= i < edges.len() && (#[trigger] edges[i]).src@ == b && edges[i].dst@ == a {
        let i = choose|i: int|
            0 <= i < edges.len() && (#[trigger] edges[i]).src@ == b && edges[i].dst@ == a;
        assert(joins(edges[i], a, b));
    }
}

proof fn walks_are_reached(edges: Seq<Edge>, w: Seq<Seq<char>>, n: nat)
    requires
        is_walk(edges, w),
        w.len() <= n + 1,
    ensures
        reach(edges, w[0], n).contains(w.last()),
    decreases w.len(),
{
    if w.len() == 1 {
        deeper_reaches_further(edges, w[0], 0, n, w[0]);
    } else {
        let t = w.drop_last();
        assert forall|i: int| #![trigger t[i]] 0 <= i < t.len() - 1 implies neighbours(
            edges,
            t[i],
            t[i + 1],
        ) by {
            assert(w[i] == t[i]);
            assert(w[i + 1] == t[i + 1]);
        }
        walks_are_reached(edges, t, (n - 1) as nat);
        let at = w.len() - 2;
        assert(neighbours(edges, w[at], w[at + 1]));
        neighbours_are_joined(edges, w[at], w[at + 1]);
        assert(joined(edges, t.last(), w.last()));
    }
}

proof fn what_is_reached_is_walked(edges: Seq<Edge>, root: Seq<char>, n: nat, k: Seq<char>)
    requires
        reach(edges, root, n).contains(k),
    ensures
        within(edges, root, n, k),
    decreases n,
{
    if n == 0 {
        let w = seq![root];
        assert(is_walk(edges, w));
        assert(w.last() == k);
    } else {
        let m = (n - 1) as nat;
        let from = reach(edges, root, m);
        if from.contains(k) {
            what_is_reached_is_walked(edges, root, m, k);
            let w = choose|w: Seq<Seq<char>>| #[trigger]
                is_walk(edges, w) && w[0] == root && w.last() == k && w.len() <= m + 1;
            assert(is_walk(edges, w));
        } else {
            let j = choose|j: Seq<char>| from.contains(j) && #[trigger] joined(edges, j, k);
            what_is_reached_is_walked(edges, root, m, j);
            neighbours_are_joined(edges, j, k);
            let w = choose|w: Seq<Seq<char>>| #[trigger]
                is_walk(edges, w) && w[0] == root && w.last() == j && w.len() <= m + 1;
            let t = w.push(k);
            assert forall|i: int| #![trigger t[i]] 0 <= i < t.len() - 1 implies neighbours(
                edges,
                t[i],
                t[i + 1],
            ) by {
                if i < w.len() - 1 {
                    assert(neighbours(edges, w[i], w[i + 1]));
                }
            }
            assert(is_walk(edges, t));
            assert(t[0] == root && t.last() == k);
        }
    }
}

/// What is within reach is what a walk leads to: a key is within `n` hops exactly
/// if some walk from the root of at most `n` steps ends there, along the edges
/// whichever way they point.
pub proof fn reach_is_by_walking(edges: Seq<Edge>, root: Seq<char>, n: nat, k: Seq<char>)
    ensures
        reach(edges, root, n).contains(k) <==> within(edges, root, n, k),
{
    if reach(edges, root, n).contains(k) {
        what_is_reached_is_walked(edges, root, n, k);
    }
    if within(edges, root, n, k) {
        let w = choose|w: Seq<Seq<char>>| #[trigger]
            is_walk(edges, w) && w[0] == root && w.last() == k && w.len() <= n + 1;
        walks_are_reached(edges, w, n);
    }
}

/// A neighbourhood shows every node that a walk of its depth leads to, each once
/// and no other; behind the root they stand in the order of their keys.
pub proof fn every_node_within_reach_is_shown(
    g: Subgraph,
    nodes: Map<Seq<char>, Node>,
    edges: Seq<Edge>,
    root: Seq<char>,
    depth: nat,
    k: Seq<char>,
)
    requires
        is_neighbourhood(g, nodes, edges, root, depth),
        nodes.contains_key(root),
        forall|x: Seq<char>| #[trigger] nodes.contains_key(x) ==> nodes[x].key@ == x,
    ensures
        nodes.contains_key(k) && within(edges, root, depth, k) ==> g.nodes@.contains(nodes[k]),
        forall|i: int|
            #![trigger g.nodes@[i]]
            0 <= i < g.nodes@.len() ==> nodes.contains_key(g.nodes@[i].key@) && nodes[g.nodes@[i].key@]
                == g.nodes@[i] && within(edges, root, depth, g.nodes@[i].key@),
        forall|i: int, j: int|
            #![trigger g.nodes@[i], g.nodes@[j]]
            0 < i < j < g.nodes@.len() ==> before(g.nodes@[i].key@, g.nodes@[j].key@),
        forall|i: int|
            #![trigger g.nodes@[i]]
            0 < i < g.nodes@.len() ==> g.nodes@[i].key@ != root,
{
    let set = others(nodes, edges, root, depth);
    let rest = choose|rest: Seq<Seq<char>>| #[trigger]
        lists(rest, set) && g.nodes@ == nodes_of(nodes, seq![root] + rest);
    let keys = seq![root] + rest;
    assert(g.nodes@.len() == keys.len());
    assert forall|i: int| #![trigger keys[i]] 0 <= i < keys.len() implies nodes.contains_key(keys[i])
        && g.nodes@[i] == nodes[keys[i]] && g.nodes@[i].key@ == keys[i] && within(
        edges,
        root,
        depth,
        keys[i],
    ) && (i > 0 ==> keys[i] != root) by {
        if i == 0 {
            deeper_reaches_further(edges, root, 0, depth, root);
        } else {
            assert(keys[i] == rest[i - 1]);
            assert(rest.contains(rest[i - 1]));
            assert(set.contains(rest[i - 1]));
        }
        reach_is_by_walking(edges, root, depth, keys[i]);
    }
    assert forall|i: int|
        #![trigger g.nodes@[i]]
        0 <= i < g.nodes@.len() implies nodes.contains_key(g.nodes@[i].key@)
        && nodes[g.nodes@[i].key@] == g.nodes@[i] && within(
        edges,
        root,
        depth,
        g.nodes@[i].key@,
    ) && (i > 0 ==> g.nodes@[i].key@ != root) by {
        assert(nodes.contains_key(keys[i]));
    }
    assert forall|i: int, j: int|
        #![trigger g.nodes@[i], g.nodes@[j]]
        0 < i < j < g.nodes@.len() implies before(g.nodes@[i].key@, g.nodes@[j].key@) by {
        assert(keys[i] == rest[i - 1] && keys[j] == rest[j - 1]);
        assert(before(rest[i - 1], rest[j - 1]));
    }
    if nodes.contains_key(k) && within(edges, root, depth, k) {
        reach_is_by_walking(edges, root, depth, k);
        if k == root {
            assert(keys[0] == root);
            assert(g.nodes@[0] == nodes[k]);
        } else {
            assert(set.contains(k));
            assert(rest.contains(k));
            let i = choose|i: int| 0 <= i < rest.len() && rest[i] == k;
            assert(keys[i + 1] == k);
            assert(g.nodes@[i + 1] == nodes[k]);
        }
    }
}

/// Every edge with an end less than `depth` steps away is shown, at either end and
/// of whatever kind, once for each pair of ends and kind; every edge shown is one
/// of the graph's with such an end.
pub proof fn every_edge_on_the_way_is_shown(
    g: Subgraph,
    nodes: Map<Seq<char>, Node>,
    edges: Seq<Edge>,
    root: Seq<char>,
    depth: nat,
    e: int,
)
    requires
        is_neighbourhood(g, nodes, edges, root, depth),
        depth > 0,
        0 <= e < edges.len(),
        within(edges, root, (depth - 1) as nat, edges[e].src@) || within(
            edges,
            root,
            (depth - 1) as nat,
            edges[e].dst@,
        ),
    ensures
        exists|i: int|
            0 <= i < g.edges@.len() && (#[trigger] g.edges@[i]).src@ == edges[e].src@
                && g.edges@[i].dst@ == edges[e].dst@ && g.edges@[i].kind@ == edges[e].kind@,
{
    let n = (depth - 1) as nat;
    let inner = inner_of(edges, root, depth);
    reach_is_by_walking(edges, root, n, edges[e].src@);
    reach_is_by_walking(edges, root, n, edges[e].dst@);
    let k = first_of_its_kind(edges, e);
    assert(touches(edges[k], inner));
    assert(is_first(edges, k));
    assert(g.edges@.contains(edges[k]));
    let i = choose|i: int| 0 <= i < g.edges@.len() && g.edges@[i] == edges[k];
    assert(g.edges@[i].src@ == edges[e].src@);
}

/// An edge that is shown is one of the graph's, the first of its ends and kind,
/// with an end less than `depth` steps away; no two have the same ends and kind;
/// and at depth zero there is none.
pub proof fn only_edges_on_the_way_are_shown(
    g: Subgraph,
    nodes: Map<Seq<char>, Node>,
    edges: Seq<Edge>,
    root: Seq<char>,
    depth: nat,
    i: int,
)
    requires
        is_neighbourhood(g, nodes, edges, root, depth),
        0 <= i < g.edges@.len(),
    ensures
        depth > 0,
        edges.contains(g.edges@[i]),
        within(edges, root, (depth - 1) as nat, g.edges@[i].src@) || within(
            edges,
            root,
            (depth - 1) as nat,
            g.edges@[i].dst@,
        ),
        forall|j: int|
            #![trigger g.edges@[j]]
            0 <= j < i ==> !(g.edges@[j].src@ == g.edges@[i].src@ && g.edges@[j].dst@
                == g.edges@[i].dst@ && g.edges@[j].kind@ == g.edges@[i].kind@),
{
    let e = g.edges@[i];
    let inner = inner_of(edges, root, depth);
    assert(g.edges@.contains(e));
    let k = choose|k: int| #[trigger] is_first(edges, k) && edges[k] == e && touches(e, inner);
    assert(edges[k] == e);
    assert(depth > 0);
    reach_is_by_walking(edges, root, (depth - 1) as nat, e.src@);
    reach_is_by_walking(edges, root, (depth - 1) as nat, e.dst@);
    assert forall|j: int| #![trigger g.edges@[j]] 0 <= j < i implies !(g.edges@[j].src@ == e.src@
        && g.edges@[j].dst@ == e.dst@ && g.edges@[j].kind@ == e.kind@) by {
        assert(edge_before(g.edges@[j], g.edges@[i]));
        before_irreflexive(e.src@);
        before_irreflexive(e.dst@);
        before_irreflexive(e.kind@);
    }
}

} // verus!
