//! The links that projects hold to one another, and the project at their centre.
use vstd::prelude::*;

use crate::graph::{Edge, Placeholder, Provenance, Score};
use crate::infer_links::SpelledKey;
use crate::seqs::{filter_step, picked, picked_step};
use crate::text::{
    before, before_asymmetric, before_irreflexive, before_total, before_transitive, opt_view,
    precedes, same,
};

verus! {

/// A link to another project: a node of this one, and the placeholder for the
/// node it refers to.
#[derive(Debug)]
pub struct Link {
    pub src: String,
    pub node: Placeholder,
    pub provenance: Provenance,
    /// How sure it is, where it was inferred.
    pub confidence: Option<Score>,
}

impl Clone for Link {
    fn clone(&self) -> (r: Self)
        ensures
            r == *self,
    {
        Link {
            src: self.src.clone(),
            node: self.node.clone(),
            provenance: self.provenance,
            confidence: (match &self.confidence {
                Some(c) => Some(c.clone()),
                None => None,
            }),
        }
    }
}

/// A placeholder with the edges that point at it.
#[derive(Debug)]
pub struct Referenced {
    pub node: Placeholder,
    pub edges: Vec<Edge>,
}

/// A hosted project: the links it holds and its config keys.
pub struct Project {
    pub name: String,
    pub links: Vec<Link>,
    pub keys: Vec<SpelledKey>,
}

// ---------------------------------------------------------------------------
// Links
// ---------------------------------------------------------------------------

/// The link that an edge to the placeholder is. A derived edge is none.
pub open spec fn linked(node: Placeholder) -> spec_fn(Edge) -> Option<Link> {
    |e: Edge|
        if e.provenance == Provenance::Derived {
            None
        } else {
            Some(
                Link {
                    src: e.src,
                    node,
                    provenance: e.provenance,
                    confidence: e.confidence,
                },
            )
        }
}

/// The links that the edges to these placeholders are, in order.
pub open spec fn links_of(found: Seq<Referenced>) -> Seq<Link>
    decreases found.len(),
{
    if found.len() == 0 {
        Seq::empty()
    } else {
        links_of(found.drop_last()) + picked(found.last().edges@, linked(found.last().node))
    }
}

fn push_links(one: &Referenced, r: &mut Vec<Link>)
    ensures
        final(r)@ == old(r)@ + picked(one.edges@, linked(one.node)),
{
    let ghost f = linked(one.node);
    let ghost base = r@;
    let mut i: usize = 0;
    assert(r@ =~= base + picked(one.edges@.take(0), f));
    while i < one.edges.len()
        invariant
            i <= one.edges@.len(),
            f == linked(one.node),
            r@ == base + picked(one.edges@.take(i as int), f),
        decreases one.edges@.len() - i,
    {
        proof {
            picked_step(one.edges@, f, i as int);
        }
        let e = &one.edges[i];
        let ghost before = picked(one.edges@.take(i as int), f);
        let counts = match e.provenance {
            Provenance::Derived => false,
            _ => true,
        };
        if counts {
            let own = e.clone();
            let l = Link {
                src: own.src,
                node: one.node.clone(),
                provenance: own.provenance,
                confidence: own.confidence,
            };
            r.push(l);
            assert(base + before.push(l) =~= (base + before).push(l));
        }
        i = i + 1;
    }
    assert(one.edges@.take(one.edges@.len() as int) =~= one.edges@);
}

/// The links that a project holds: its authored and inferred edges to
/// placeholders.
pub fn external_refs(found: &Vec<Referenced>) -> (r: Vec<Link>)
    ensures
        r@ == links_of(found@),
{
    let mut r: Vec<Link> = Vec::new();
    let mut i: usize = 0;
    assert(r@ =~= links_of(found@.take(0)));
    while i < found.len()
        invariant
            i <= found@.len(),
            r@ == links_of(found@.take(i as int)),
        decreases found@.len() - i,
    {
        assert(found@.take(i + 1).drop_last() =~= found@.take(i as int));
        push_links(&found[i], &mut r);
        i = i + 1;
    }
    assert(found@.take(found@.len() as int) =~= found@);
    r
}

// ---------------------------------------------------------------------------
// The hub that links point at
// ---------------------------------------------------------------------------

/// The link points into the project `p`.
pub open spec fn points_at(p: Seq<char>) -> spec_fn(Link) -> bool {
    |l: Link| opt_view(l.node.project) == Some(p)
}

/// How many links of all projects point into `p`.
pub open spec fn pointing(projects: Seq<Project>, p: Seq<char>) -> nat
    decreases projects.len(),
{
    if projects.len() == 0 {
        0
    } else {
        pointing(projects.drop_last(), p) + projects.last().links@.filter(points_at(p)).len()
    }
}

/// A project of this name is hosted.
pub open spec fn hosted(projects: Seq<Project>, p: Seq<char>) -> bool {
    exists|i: int| 0 <= i < projects.len() && (#[trigger] projects[i]).name@ == p
}

/// `h` is the hosted project that most links point into, the last by name where
/// several are equal; nothing where no link points into a hosted project.
pub open spec fn is_linked_hub(h: Option<Seq<char>>, projects: Seq<Project>) -> bool {
    match h {
        Some(p) => {
            &&& hosted(projects, p)
            &&& pointing(projects, p) > 0
            &&& forall|i: int|
                #![trigger projects[i]]
                0 <= i < projects.len() ==> pointing(projects, projects[i].name@) < pointing(
                    projects,
                    p,
                ) || (pointing(projects, projects[i].name@) == pointing(projects, p) && !before(
                    p,
                    projects[i].name@,
                ))
        },
        None => forall|i: int|
            #![trigger projects[i]]
            0 <= i < projects.len() ==> pointing(projects, projects[i].name@) == 0,
    }
}

fn count_in(links: &Vec<Link>, p: &str) -> (r: usize)
    ensures
        r == links@.filter(points_at(p@)).len(),
        r <= links@.len(),
{
    let ghost f = points_at(p@);
    let mut n: usize = 0;
    let mut i: usize = 0;
    proof {
        reveal(Seq::filter);
        assert(links@.take(0).filter(f).len() == 0);
    }
    while i < links.len()
        invariant
            i <= links@.len(),
            n <= i,
            f == points_at(p@),
            n == links@.take(i as int).filter(f).len(),
        decreases links@.len() - i,
    {
        proof {
            filter_step(links@, i as int, f);
        }
        let here = match &links[i].node.project {
            Some(q) => same(q.as_str(), p),
            None => false,
        };
        if here {
            n = n + 1;
        }
        i = i + 1;
    }
    assert(links@.take(links@.len() as int) =~= links@);
    n
}

fn count_all(projects: &Vec<Project>, p: &str) -> (r: u128)
    ensures
        r == pointing(projects@, p@),
{
    let mut n: u128 = 0;
    let mut i: usize = 0;
    while i < projects.len()
        invariant
            i <= projects@.len(),
            n == pointing(projects@.take(i as int), p@),
            n <= i * 0xFFFF_FFFF_FFFF_FFFF,
        decreases projects@.len() - i,
    {
        assert(projects@.take(i + 1).drop_last() =~= projects@.take(i as int));
        let c: usize = count_in(&projects[i].links, p);
        n = n + c as u128;
        i = i + 1;
    }
    assert(projects@.take(projects@.len() as int) =~= projects@);
    n
}

/// `k` ranks as the hub among the first `i` projects.
spec fn leads(projects: Seq<Project>, i: int, k: Option<int>) -> bool {
    match k {
        Some(b) => {
            &&& 0 <= b < i
            &&& pointing(projects, projects[b].name@) > 0
            &&& forall|j: int|
                #![trigger projects[j]]
                0 <= j < i ==> pointing(projects, projects[j].name@) < pointing(
                    projects,
                    projects[b].name@,
                ) || (pointing(projects, projects[j].name@) == pointing(
                    projects,
                    projects[b].name@,
                ) && !before(projects[b].name@, projects[j].name@))
        },
        None => forall|j: int|
            #![trigger projects[j]]
            0 <= j < i ==> pointing(projects, projects[j].name@) == 0,
    }
}

/// The hosted project that most links point into.
pub fn determine_hub(projects: &Vec<Project>) -> (r: Option<String>)
    ensures
        is_linked_hub(opt_view(r), projects@),
{
    let mut best: Option<usize> = None;
    let mut most: u128 = 0;
    let mut i: usize = 0;
    let ghost ps = projects@;
    while i < projects.len()
        invariant
            i <= projects@.len(),
            ps == projects@,
            leads(
                ps,
                i as int,
                (match best {
                    Some(b) => Some(b as int),
                    None => None,
                }),
            ),
            best matches Some(b) ==> b < i && most == pointing(ps, ps[b as int].name@),
            best is None ==> most == 0,
        decreases projects@.len() - i,
    {
        let name = projects[i].name.as_str();
        let n: u128 = count_all(projects, name);
        let wins = match best {
            Some(b) => n > most || (n == most && precedes(projects[b].name.as_str(), name)),
            None => n > 0,
        };
        proof {
            if let Some(b) = best {
                let old = ps[b as int].name@;
                before_irreflexive(name@);
                before_total(old, name@);
                if before(old, name@) {
                    before_asymmetric(old, name@);
                    assert forall|j: int|
                        #![trigger ps[j]]
                        0 <= j < i && pointing(ps, ps[j].name@) == most implies !before(
                        name@,
                        ps[j].name@,
                    ) by {
                        if before(name@, ps[j].name@) {
                            before_transitive(old, name@, ps[j].name@);
                        }
                    }
                }
            } else {
                before_irreflexive(name@);
            }
        }
        if wins {
            best = Some(i);
            most = n;
        }
        i = i + 1;
    }
    match best {
        Some(b) => {
            assert(hosted(ps, ps[b as int].name@));
            Some(projects[b].name.clone())
        },
        None => None,
    }
}

// ---------------------------------------------------------------------------
// The hub that has the most keys
// ---------------------------------------------------------------------------

/// The project has config keys.
pub open spec fn has_keys() -> spec_fn(Project) -> bool {
    |p: Project| p.keys@.len() > 0
}

/// The project at `a` has more keys than the one at `b`, or as many and the
/// earlier name or the same.
pub open spec fn richer(projects: Seq<Project>, a: int, b: int) -> bool {
    projects[b].keys@.len() < projects[a].keys@.len() || (projects[b].keys@.len()
        == projects[a].keys@.len() && !before(projects[b].name@, projects[a].name@))
}

/// `h` is the project with the most config keys, the first by name where several
/// are equal; nothing where fewer than two projects have any.
pub open spec fn is_richest(h: Option<Seq<char>>, projects: Seq<Project>) -> bool {
    if projects.filter(has_keys()).len() < 2 {
        h is None
    } else {
        exists|a: int|
            0 <= a < projects.len() && h == Some((#[trigger] projects[a]).name@)
                && projects[a].keys@.len() > 0 && forall|b: int|
                #![trigger projects[b]]
                0 <= b < projects.len() ==> richer(projects, a, b)
    }
}

/// The project with the most config keys.
pub fn config_key_count_hub(projects: &Vec<Project>) -> (r: Option<String>)
    ensures
        is_richest(opt_view(r), projects@),
{
    let ghost ps = projects@;
    let mut bearing: usize = 0;
    let mut best: usize = 0;
    let mut i: usize = 0;
    proof {
        reveal(Seq::filter);
        assert(ps.take(0).filter(has_keys()).len() == 0);
    }
    while i < projects.len()
        invariant
            i <= projects@.len(),
            ps == projects@,
            bearing == ps.take(i as int).filter(has_keys()).len(),
            bearing <= i,
            bearing > 0 ==> best < i && ps[best as int].keys@.len() > 0 && forall|b: int|
                #![trigger ps[b]]
                0 <= b < i ==> richer(ps, best as int, b),
            bearing == 0 ==> forall|b: int| #![trigger ps[b]] 0 <= b < i ==> ps[b].keys@.len() == 0,
        decreases projects@.len() - i,
    {
        proof {
            filter_step(ps, i as int, has_keys());
        }
        let n: usize = projects[i].keys.len();
        if n > 0 {
            let wins = bearing == 0 || n > projects[best].keys.len() || (n
                == projects[best].keys.len() && precedes(
                projects[i].name.as_str(),
                projects[best].name.as_str(),
            ));
            proof {
                let mine = ps[i as int].name@;
                before_irreflexive(mine);
                if wins && bearing > 0 {
                    let old = ps[best as int].name@;
                    assert forall|b: int| #![trigger ps[b]] 0 <= b < i implies richer(
                        ps,
                        i as int,
                        b,
                    ) by {
                        if ps[b].keys@.len() == ps[i as int].keys@.len() && before(
                            ps[b].name@,
                            mine,
                        ) {
                            assert(richer(ps, best as int, b));
                            before_transitive(ps[b].name@, mine, old);
                        }
                    }
                }
            }
            if wins {
                best = i;
            }
            bearing = bearing + 1;
        }
        i = i + 1;
    }
    assert(ps.take(ps.len() as int) =~= ps);
    if bearing < 2 {
        return None;
    }
    assert(ps[best as int].keys@.len() > 0);
    Some(projects[best].name.clone())
}

// ---------------------------------------------------------------------------
// The hub in force
// ---------------------------------------------------------------------------

/// Some project holds a link.
pub open spec fn any_link(projects: Seq<Project>) -> bool {
    exists|i: int| 0 <= i < projects.len() && (#[trigger] projects[i]).links@.len() > 0
}

/// Whether some project holds a link.
pub fn workspace_has_external_refs(projects: &Vec<Project>) -> (r: bool)
    ensures
        r == any_link(projects@),
{
    let mut i: usize = 0;
    while i < projects.len()
        invariant
            i <= projects@.len(),
            forall|j: int| 0 <= j < i ==> (#[trigger] projects@[j]).links@.len() == 0,
        decreases projects@.len() - i,
    {
        if projects[i].links.len() > 0 {
            assert(projects@[i as int].links@.len() > 0);
            return true;
        }
        i = i + 1;
    }
    false
}

/// `h` is the hub in force: the one that links point at; where there are no
/// links at all, the one with the most keys; and none where links exist but
/// point at nothing that is hosted.
pub open spec fn is_hub(h: Option<Seq<char>>, projects: Seq<Project>) -> bool {
    if !is_linked_hub(None, projects) {
        is_linked_hub(h, projects)
    } else if any_link(projects) {
        h is None
    } else {
        is_richest(h, projects)
    }
}

/// The hub in force.
pub fn effective_hub(projects: &Vec<Project>) -> (r: Option<String>)
    ensures
        is_hub(opt_view(r), projects@),
{
    match determine_hub(projects) {
        Some(h) => {
            proof {
                let p = h@;
                let i = choose|i: int|
                    0 <= i < projects@.len() && (#[trigger] projects@[i]).name@ == p;
                assert(pointing(projects@, projects@[i].name@) > 0);
                assert(!is_linked_hub(None, projects@));
            }
            return Some(h);
        },
        None => {},
    }
    if workspace_has_external_refs(projects) {
        return None;
    }
    config_key_count_hub(projects)
}

// ---------------------------------------------------------------------------
// Laws
// ---------------------------------------------------------------------------

/// The hub is always a hosted project, however many links point elsewhere.
pub proof fn the_hub_is_hosted(h: Option<Seq<char>>, projects: Seq<Project>)
    requires
        is_hub(h, projects),
        h is Some,
    ensures
        hosted(projects, h->0),
{
    if is_linked_hub(None, projects) {
        let a = choose|a: int|
            0 <= a < projects.len() && h == Some((#[trigger] projects[a]).name@)
                && projects[a].keys@.len() > 0 && forall|b: int|
                #![trigger projects[b]]
                0 <= b < projects.len() ==> richer(projects, a, b);
        assert(projects[a].name@ == h->0);
    }
}

/// There is one hub: which it is follows from the projects.
pub proof fn the_hub_is_determined(a: Option<Seq<char>>, b: Option<Seq<char>>, projects: Seq<Project>)
    requires
        is_hub(a, projects),
        is_hub(b, projects),
    ensures
        a == b,
{
    if !is_linked_hub(None, projects) {
        let x = a->0;
        let y = b->0;
        let i = choose|i: int| 0 <= i < projects.len() && (#[trigger] projects[i]).name@ == x;
        let j = choose|j: int| 0 <= j < projects.len() && (#[trigger] projects[j]).name@ == y;
        assert(projects[i].name@ == x);
        assert(projects[j].name@ == y);
        before_total(x, y);
    } else if !any_link(projects) && projects.filter(has_keys()).len() >= 2 {
        let i = choose|i: int|
            0 <= i < projects.len() && a == Some((#[trigger] projects[i]).name@)
                && projects[i].keys@.len() > 0 && forall|k: int|
                #![trigger projects[k]]
                0 <= k < projects.len() ==> richer(projects, i, k);
        let j = choose|j: int|
            0 <= j < projects.len() && b == Some((#[trigger] projects[j]).name@)
                && projects[j].keys@.len() > 0 && forall|k: int|
                #![trigger projects[k]]
                0 <= k < projects.len() ==> richer(projects, j, k);
        assert(richer(projects, i, j));
        assert(richer(projects, j, i));
        before_total(projects[i].name@, projects[j].name@);
    }
}

} // verus!
