//! What holds of every hub, of every spoke's links and of every view of them.
use vstd::prelude::*;

use crate::graph::{cfgkey_of, extref_of, qualified_of, ConfigKey, Node, Provenance};
use crate::graph_api::hub::{
    any_link, has_keys, hosted, is_hub, is_linked_hub, linked, links_of, pointing, points_at,
    richer, Link, Project, Referenced,
};
use crate::graph_api::links::{
    corresponds, deduped, has_ends, inferred, node_of, pairs, seen, seen_all, shown, sources, stray,
    target, LinkView, SpokeLinks,
};
use crate::graph_api::views::{
    all_follow, all_outcomes, drawn, drift_of, drifting, fails_with, file_of, hard, input_is,
    inputs_are, is_spoke, key_at, leads_nowhere, match_views, outcomes, overriding, row, rows,
    rows_view, start_of, summaries_view, summary, topology_is, values_of, FollowedLink, MatchView,
    ProjectLink, SpokeView, Topology,
};
use crate::graph_api::{dangles, fault_status, ApiError, WorkspaceError};
use crate::infer_links::{matched, score_of, SpelledKey};
use crate::overview::SpokeInput;
use crate::seqs::{filtered, picked, picked_count, picked_facts};
use crate::text::{before, opt_view};

verus! {

// ---------------------------------------------------------------------------
// Links and the hub
// ---------------------------------------------------------------------------

/// The link is what the edge into the placeholder says.
pub open spec fn is_that_link(l: Link, r: Referenced, j: int) -> bool {
    l.src == r.edges@[j].src && l.node == r.node && l.provenance == r.edges@[j].provenance
        && l.confidence == r.edges@[j].confidence
}

/// Every edge into a placeholder that was authored or inferred is a link, with its
/// own provenance and confidence; a derived one is none; and nothing else is.
pub proof fn every_written_edge_is_a_link(found: Seq<Referenced>)
    ensures
        forall|i: int, j: int|
            #![trigger found[i].edges@[j]]
            0 <= i < found.len() && 0 <= j < found[i].edges@.len() && (
            found[i].edges@[j].provenance == Provenance::Authored || found[i].edges@[j].provenance
                == Provenance::Inferred) ==> exists|k: int|
                0 <= k < links_of(found).len() && is_that_link(
                    #[trigger] links_of(found)[k],
                    found[i],
                    j,
                ),
        forall|k: int|
            0 <= k < links_of(found).len() ==> (#[trigger] links_of(found)[k]).provenance
                != Provenance::Derived && from_an_edge(links_of(found)[k], found),
    decreases found.len(),
{
    if found.len() > 0 {
        let t = found.drop_last();
        let last = found.last();
        let f = linked(last.node);
        let a = links_of(t);
        let b = picked(last.edges@, f);
        let all = links_of(found);
        every_written_edge_is_a_link(t);
        picked_facts(last.edges@, f);
        assert forall|i: int, j: int|
            #![trigger found[i].edges@[j]]
            0 <= i < found.len() && 0 <= j < found[i].edges@.len() && (
            found[i].edges@[j].provenance == Provenance::Authored || found[i].edges@[j].provenance
                == Provenance::Inferred) implies exists|k: int|
            0 <= k < all.len() && is_that_link(#[trigger] all[k], found[i], j) by {
            if i < t.len() {
                assert(t[i].edges@[j] == found[i].edges@[j]);
                let k = choose|k: int| 0 <= k < a.len() && is_that_link(#[trigger] a[k], t[i], j);
                assert(all[k] == a[k]);
            } else {
                let l = f(last.edges@[j])->0;
                assert(f(last.edges@[j]) == Some(l));
                assert(b.contains(l));
                let k = choose|k: int| 0 <= k < b.len() && b[k] == l;
                assert(all[a.len() + k] == l);
            }
        }
        assert forall|k: int| 0 <= k < all.len() implies (#[trigger] all[k]).provenance
            != Provenance::Derived && from_an_edge(all[k], found) by {
            if k < a.len() {
                assert(all[k] == a[k]);
                let (i, j) = choose|i: int, j: int|
                    #![trigger t[i].edges@[j]]
                    0 <= i < t.len() && 0 <= j < t[i].edges@.len() && is_that_link(a[k], t[i], j);
                assert(found[i].edges@[j] == t[i].edges@[j]);
            } else {
                let l = b[k - a.len()];
                assert(b.contains(l));
                let j = choose|j: int|
                    0 <= j < last.edges@.len() && f(#[trigger] last.edges@[j]) == Some(l);
                assert(is_that_link(all[k], found[found.len() - 1], j));
                assert(found[found.len() - 1].edges@[j] == last.edges@[j]);
            }
        }
    }
}

/// The link comes from an edge into one of the placeholders.
pub open spec fn from_an_edge(l: Link, found: Seq<Referenced>) -> bool {
    exists|i: int, j: int|
        #![trigger found[i].edges@[j]]
        0 <= i < found.len() && 0 <= j < found[i].edges@.len() && is_that_link(l, found[i], j)
}

/// The links into a project are counted over all projects: those of some and those
/// of others together, and of one project each of its links that names it, whoever
/// made it.
pub proof fn every_link_into_a_project_counts(
    a: Seq<Project>,
    b: Seq<Project>,
    x: Project,
    p: Seq<char>,
)
    ensures
        pointing(a + b, p) == pointing(a, p) + pointing(b, p),
        pointing(seq![x], p) == x.links@.filter(
            |l: Link| l.node.project is Some && l.node.project->0@ == p,
        ).len(),
    decreases b.len(),
{
    let one = seq![x];
    reveal_with_fuel(pointing, 2);
    assert(one.drop_last().len() == 0);
    crate::seqs::filter_alike(
        x.links@,
        x.links@,
        points_at(p),
        |l: Link| l.node.project is Some && l.node.project->0@ == p,
        |l: Link| l,
    );
    if b.len() == 0 {
        assert(a + b =~= a);
    } else {
        assert((a + b).drop_last() =~= a + b.drop_last());
        every_link_into_a_project_counts(a, b.drop_last(), x, p);
    }
}

/// Where any link points into a hosted project, the hub is a hosted project that
/// no other is pointed at more often than, and among equals the last by name;
/// where links point only elsewhere, there is none.
pub proof fn the_hub_is_pointed_at_most(h: Option<Seq<char>>, ps: Seq<Project>)
    requires
        is_hub(h, ps),
    ensures
        (exists|i: int| 0 <= i < ps.len() && pointing(ps, (#[trigger] ps[i]).name@) > 0) ==> {
            &&& h is Some
            &&& exists|i: int| 0 <= i < ps.len() && (#[trigger] ps[i]).name@ == h->0
            &&& pointing(ps, h->0) > 0
            &&& forall|i: int|
                #![trigger ps[i]]
                0 <= i < ps.len() ==> pointing(ps, ps[i].name@) <= pointing(ps, h->0)
            &&& forall|i: int|
                #![trigger ps[i]]
                0 <= i < ps.len() && pointing(ps, ps[i].name@) == pointing(ps, h->0) ==> ps[i].name@
                    == h->0 || before(ps[i].name@, h->0)
        },
        (forall|i: int| 0 <= i < ps.len() ==> pointing(ps, (#[trigger] ps[i]).name@) == 0) && (
        exists|i: int| 0 <= i < ps.len() && (#[trigger] ps[i]).links@.len() > 0) ==> h is None,
{
    if exists|i: int| 0 <= i < ps.len() && pointing(ps, (#[trigger] ps[i]).name@) > 0 {
        let x = choose|i: int| 0 <= i < ps.len() && pointing(ps, (#[trigger] ps[i]).name@) > 0;
        assert(pointing(ps, ps[x].name@) != 0);
        assert(!is_linked_hub(None, ps));
        assert(hosted(ps, h->0));
        assert forall|i: int|
            #![trigger ps[i]]
            0 <= i < ps.len() && pointing(ps, ps[i].name@) == pointing(ps, h->0) implies ps[i].name@
            == h->0 || before(ps[i].name@, h->0) by {
            crate::text::before_total(ps[i].name@, h->0);
        }
    }
    if forall|i: int| 0 <= i < ps.len() ==> pointing(ps, (#[trigger] ps[i]).name@) == 0 {
        assert(is_linked_hub(None, ps));
    }
}

/// Where there are no links at all, the hub is the project with the most config
/// keys, among equals the first by name, if at least two projects have any; else
/// there is none.
pub proof fn without_links_the_richest_is_the_hub(h: Option<Seq<char>>, ps: Seq<Project>)
    requires
        is_hub(h, ps),
        forall|i: int| 0 <= i < ps.len() ==> (#[trigger] ps[i]).links@.len() == 0,
    ensures
        (exists|i: int, j: int|
            #![trigger ps[i], ps[j]]
            0 <= i < j < ps.len() && ps[i].keys@.len() > 0 && ps[j].keys@.len() > 0) ==> {
            &&& h is Some
            &&& exists|a: int|
                #![trigger ps[a]]
                0 <= a < ps.len() && ps[a].name@ == h->0 && ps[a].keys@.len() > 0 && forall|b: int|
                    #![trigger ps[b]]
                    0 <= b < ps.len() ==> ps[b].keys@.len() < ps[a].keys@.len() || (
                    ps[b].keys@.len() == ps[a].keys@.len() && !before(ps[b].name@, h->0))
        },
        (forall|i: int, j: int|
            #![trigger ps[i], ps[j]]
            0 <= i < j < ps.len() ==> ps[i].keys@.len() == 0 || ps[j].keys@.len() == 0) ==> h is None,
{
    assert(!any_link(ps));
    assert forall|i: int| 0 <= i < ps.len() implies pointing(ps, (#[trigger] ps[i]).name@) == 0 by {
        no_links_no_pointing(ps, ps[i].name@);
    }
    assert(is_linked_hub(None, ps));
    let p = has_keys();
    if exists|i: int, j: int|
        #![trigger ps[i], ps[j]]
        0 <= i < j < ps.len() && ps[i].keys@.len() > 0 && ps[j].keys@.len() > 0 {
        let (i, j) = choose|i: int, j: int|
            #![trigger ps[i], ps[j]]
            0 <= i < j < ps.len() && ps[i].keys@.len() > 0 && ps[j].keys@.len() > 0;
        two_with_keys(ps, i, j);
        let a = choose|a: int|
            0 <= a < ps.len() && h == Some((#[trigger] ps[a]).name@) && ps[a].keys@.len() > 0
                && forall|b: int| #![trigger ps[b]] 0 <= b < ps.len() ==> richer(ps, a, b);
        assert(ps[a].name@ == h->0);
        assert forall|b: int| #![trigger ps[b]] 0 <= b < ps.len() implies ps[b].keys@.len()
            < ps[a].keys@.len() || (ps[b].keys@.len() == ps[a].keys@.len() && !before(
            ps[b].name@,
            h->0,
        )) by {
            assert(richer(ps, a, b));
        }
    }
    if forall|i: int, j: int|
        #![trigger ps[i], ps[j]]
        0 <= i < j < ps.len() ==> ps[i].keys@.len() == 0 || ps[j].keys@.len() == 0 {
        at_most_one_with_keys(ps);
    }
}

proof fn no_links_no_pointing(ps: Seq<Project>, p: Seq<char>)
    requires
        forall|i: int| 0 <= i < ps.len() ==> (#[trigger] ps[i]).links@.len() == 0,
    ensures
        pointing(ps, p) == 0,
    decreases ps.len(),
{
    if ps.len() > 0 {
        let t = ps.drop_last();
        assert(ps[ps.len() - 1].links@.len() == 0);
        filtered(ps.last().links@, points_at(p));
        assert forall|i: int| 0 <= i < t.len() implies (#[trigger] t[i]).links@.len() == 0 by {
            assert(t[i] == ps[i]);
        }
        no_links_no_pointing(t, p);
    }
}

proof fn two_with_keys(ps: Seq<Project>, i: int, j: int)
    requires
        0 <= i < j < ps.len(),
        ps[i].keys@.len() > 0,
        ps[j].keys@.len() > 0,
    ensures
        ps.filter(has_keys()).len() >= 2,
    decreases ps.len(),
{
    reveal(Seq::filter);
    let t = ps.drop_last();
    if j < t.len() {
        assert(t[i] == ps[i] && t[j] == ps[j]);
        two_with_keys(t, i, j);
    } else {
        assert(t[i] == ps[i]);
        filtered(t, has_keys());
        assert(has_keys()(t[i]));
        assert(t.filter(has_keys()).contains(t[i]));
    }
}

proof fn at_most_one_with_keys(ps: Seq<Project>)
    requires
        forall|i: int, j: int|
            #![trigger ps[i], ps[j]]
            0 <= i < j < ps.len() ==> ps[i].keys@.len() == 0 || ps[j].keys@.len() == 0,
    ensures
        ps.filter(has_keys()).len() < 2,
    decreases ps.len(),
{
    reveal(Seq::filter);
    if ps.len() > 0 {
        let t = ps.drop_last();
        let p = has_keys();
        let last = ps.len() - 1;
        assert forall|i: int, j: int| #![trigger t[i], t[j]] 0 <= i < j < t.len() implies t[i].keys@.len()
            == 0 || t[j].keys@.len() == 0 by {
            assert(t[i] == ps[i] && t[j] == ps[j]);
        }
        at_most_one_with_keys(t);
        if p(ps.last()) {
            filtered(t, p);
            if t.filter(p).len() > 0 {
                assert(p(t.filter(p)[0]) && t.contains(t.filter(p)[0]));
                let k = choose|k: int| 0 <= k < t.len() && t[k] == t.filter(p)[0];
                assert(ps[k] == t[k]);
                assert(ps[k].keys@.len() == 0 || ps[last].keys@.len() == 0);
            }
        }
    }
}

// ---------------------------------------------------------------------------
// A spoke's correspondence
// ---------------------------------------------------------------------------

/// The links start and end at the same nodes.
pub open spec fn same_ends(a: LinkView, b: LinkView) -> bool {
    a.src == b.src && target(a) == target(b)
}

/// Of links with the same ends the first is kept, whole, and every link has its
/// like among those that are.
pub proof fn the_first_of_the_same_ends_is_kept(s: Seq<LinkView>, i: int)
    requires
        0 <= i < s.len(),
    ensures
        (forall|j: int| 0 <= j < i ==> !same_ends(#[trigger] s[j], s[i])) ==> deduped(s).contains(
            s[i],
        ),
        exists|k: int| 0 <= k < deduped(s).len() && same_ends(#[trigger] deduped(s)[k], s[i]),
    decreases s.len(),
{
    let t = s.drop_last();
    let was = deduped(t);
    let now = deduped(s);
    assert forall|k: int| 0 <= k < was.len() implies #[trigger] now[k] == was[k] by {}
    if i < t.len() {
        the_first_of_the_same_ends_is_kept(t, i);
        assert(t[i] == s[i]);
        let k = choose|k: int| 0 <= k < was.len() && same_ends(#[trigger] was[k], t[i]);
        assert(same_ends(now[k], s[i]));
        if forall|j: int| 0 <= j < i ==> !same_ends(#[trigger] s[j], s[i]) {
            assert forall|j: int| 0 <= j < i implies !same_ends(#[trigger] t[j], t[i]) by {
                assert(t[j] == s[j]);
            }
            let k = choose|k: int| 0 <= k < was.len() && was[k] == t[i];
            assert(now[k] == s[i]);
        }
    } else {
        let x = s.last();
        if has_ends(was, x) {
            let k = choose|k: int|
                0 <= k < was.len() && (#[trigger] was[k]).src == x.src && target(was[k]) == target(x);
            assert(same_ends(now[k], s[i]));
            let m = a_kept_link_was_there(t, k);
            assert(s[m] == t[m]);
            assert(same_ends(s[m], s[i]));
        } else {
            assert(now[was.len() as int] == x);
            assert(same_ends(now[was.len() as int], s[i]));
        }
    }
}

/// A link that is kept was there.
pub proof fn a_kept_link_was_there(s: Seq<LinkView>, k: int) -> (m: int)
    requires
        0 <= k < deduped(s).len(),
    ensures
        0 <= m < s.len(),
        s[m] == deduped(s)[k],
    decreases s.len(),
{
    let t = s.drop_last();
    let was = deduped(t);
    if k < was.len() {
        let m = a_kept_link_was_there(t, k);
        assert(s[m] == t[m]);
        m
    } else {
        s.len() - 1
    }
}

/// A link in `s` starts and ends there.
pub open spec fn leads(s: Seq<Link>, src: Seq<char>, to: Option<Seq<char>>) -> bool {
    exists|i: int|
        0 <= i < s.len() && (#[trigger] s[i]).src@ == src && target(seen(s[i])) == (match to {
            Some(q) => q,
            None => Seq::empty(),
        })
}

/// No link of the spoke's own starts at the config key.
pub open spec fn unlinked(spoke: Project, s: SpelledKey) -> bool {
    forall|i: int|
        0 <= i < spoke.links@.len() ==> (#[trigger] spoke.links@[i]).src@ != cfgkey_of(
            s.own.file@,
            s.own.key@,
        )
}

/// A spoke's links and keys all have their place: each link of its own is shown,
/// or another of its own with the same ends; each of its keys that no link of its
/// own starts at is linked to the hub key it is matched to, or, matched to none, is
/// an orphan. A key that a link of its own starts at is no orphan.
pub proof fn every_key_and_link_has_its_place(
    r: SpokeLinks,
    spoke: Project,
    hub: Seq<char>,
    hub_keys: Seq<SpelledKey>,
)
    requires
        corresponds(r, spoke, Some(hub), hub_keys),
    ensures
        forall|i: int|
            #![trigger spoke.links@[i]]
            0 <= i < spoke.links@.len() ==> leads(
                r.refs@,
                spoke.links@[i].src@,
                opt_view(spoke.links@[i].node.qualified),
            ),
        forall|i: int|
            #![trigger spoke.keys@[i]]
            0 <= i < spoke.keys@.len() && unlinked(spoke, spoke.keys@[i]) && matched(
                spoke.keys@[i],
                hub_keys,
            ) is Some ==> leads(
                r.refs@,
                cfgkey_of(spoke.keys@[i].own.file@, spoke.keys@[i].own.key@),
                Some(
                    qualified_of(
                        hub,
                        cfgkey_of(
                            (matched(spoke.keys@[i], hub_keys)->0).0.own.file@,
                            (matched(spoke.keys@[i], hub_keys)->0).0.own.key@,
                        ),
                    ),
                ),
            ),
        forall|i: int|
            #![trigger spoke.keys@[i]]
            0 <= i < spoke.keys@.len() && unlinked(spoke, spoke.keys@[i]) && matched(
                spoke.keys@[i],
                hub_keys,
            ) is None ==> pairs(r.orphans@).contains(
                (spoke.keys@[i].own.key@, spoke.keys@[i].own.value@),
            ),
        r.orphans@.len() == spoke.keys@.filter(
            |s: SpelledKey| matched(s, hub_keys) is None && unlinked(spoke, s),
        ).len(),
{
    assert forall|i: int| #![trigger spoke.links@[i]] 0 <= i < spoke.links@.len() implies leads(
        r.refs@,
        spoke.links@[i].src@,
        opt_view(spoke.links@[i].node.qualified),
    ) by {
        an_own_link_is_shown(r, spoke, hub, hub_keys, i);
    }
    assert forall|i: int|
        #![trigger spoke.keys@[i]]
        0 <= i < spoke.keys@.len() && unlinked(spoke, spoke.keys@[i]) && matched(
            spoke.keys@[i],
            hub_keys,
        ) is Some implies leads(
        r.refs@,
        cfgkey_of(spoke.keys@[i].own.file@, spoke.keys@[i].own.key@),
        Some(
            qualified_of(
                hub,
                cfgkey_of(
                    (matched(spoke.keys@[i], hub_keys)->0).0.own.file@,
                    (matched(spoke.keys@[i], hub_keys)->0).0.own.key@,
                ),
            ),
        ),
    ) by {
        a_matched_key_is_linked(r, spoke, hub, hub_keys, i);
    }
    orphans_are_unmatched(r, spoke, hub, hub_keys);
}

proof fn an_own_link_is_shown(
    r: SpokeLinks,
    spoke: Project,
    hub: Seq<char>,
    hub_keys: Seq<SpelledKey>,
    i: int,
)
    requires
        corresponds(r, spoke, Some(hub), hub_keys),
        0 <= i < spoke.links@.len(),
    ensures
        leads(r.refs@, spoke.links@[i].src@, opt_view(spoke.links@[i].node.qualified)),
{
    let own = seen_all(spoke.links@);
    let live = picked(spoke.keys@, inferred(hub, hub_keys, sources(spoke.links@)));
    let all = own + live;
    assert(own[i] == seen(spoke.links@[i]));
    assert(all[i] == own[i]);
    the_first_of_the_same_ends_is_kept(all, i);
    let k = choose|k: int| 0 <= k < deduped(all).len() && same_ends(#[trigger] deduped(all)[k], all[i]);
    ends_are_led_to(r.refs@, all[i], k);
}

proof fn a_matched_key_is_linked(
    r: SpokeLinks,
    spoke: Project,
    hub: Seq<char>,
    hub_keys: Seq<SpelledKey>,
    i: int,
)
    requires
        corresponds(r, spoke, Some(hub), hub_keys),
        0 <= i < spoke.keys@.len(),
        unlinked(spoke, spoke.keys@[i]),
        matched(spoke.keys@[i], hub_keys) is Some,
    ensures
        leads(
            r.refs@,
            cfgkey_of(spoke.keys@[i].own.file@, spoke.keys@[i].own.key@),
            Some(
                qualified_of(
                    hub,
                    cfgkey_of(
                        (matched(spoke.keys@[i], hub_keys)->0).0.own.file@,
                        (matched(spoke.keys@[i], hub_keys)->0).0.own.key@,
                    ),
                ),
            ),
        ),
{
    let s = spoke.keys@[i];
    let own = seen_all(spoke.links@);
    let f = inferred(hub, hub_keys, sources(spoke.links@));
    let live = picked(spoke.keys@, f);
    let all = own + live;
    linked_or_not(spoke, s);
    picked_facts(spoke.keys@, f);
    let l = f(s)->0;
    assert(f(s) == Some(l));
    assert(live.contains(l));
    let k = choose|k: int| 0 <= k < live.len() && live[k] == l;
    let at = own.len() + k;
    assert(all[at] == l);
    the_first_of_the_same_ends_is_kept(all, at);
    let m = choose|m: int| 0 <= m < deduped(all).len() && same_ends(#[trigger] deduped(all)[m], all[at]);
    ends_are_led_to(r.refs@, l, m);
}

proof fn orphans_are_unmatched(
    r: SpokeLinks,
    spoke: Project,
    hub: Seq<char>,
    hub_keys: Seq<SpelledKey>,
)
    requires
        corresponds(r, spoke, Some(hub), hub_keys),
    ensures
        forall|i: int|
            #![trigger spoke.keys@[i]]
            0 <= i < spoke.keys@.len() && unlinked(spoke, spoke.keys@[i]) && matched(
                spoke.keys@[i],
                hub_keys,
            ) is None ==> pairs(r.orphans@).contains(
                (spoke.keys@[i].own.key@, spoke.keys@[i].own.value@),
            ),
        r.orphans@.len() == spoke.keys@.filter(
            |s: SpelledKey| matched(s, hub_keys) is None && unlinked(spoke, s),
        ).len(),
{
    let g = stray(hub_keys, sources(spoke.links@));
    picked_facts(spoke.keys@, g);
    assert forall|s: SpelledKey| #[trigger] unlinked(spoke, s) == !sources(spoke.links@).contains(
        node_of(s),
    ) by {
        linked_or_not(spoke, s);
    }
    picked_count(
        spoke.keys@,
        g,
        |s: SpelledKey| matched(s, hub_keys) is None && unlinked(spoke, s),
    );
    assert(pairs(r.orphans@).len() == r.orphans@.len());
    assert forall|i: int|
        #![trigger spoke.keys@[i]]
        0 <= i < spoke.keys@.len() && unlinked(spoke, spoke.keys@[i]) && matched(
            spoke.keys@[i],
            hub_keys,
        ) is None implies pairs(r.orphans@).contains(
        (spoke.keys@[i].own.key@, spoke.keys@[i].own.value@),
    ) by {
        let s = spoke.keys@[i];
        assert(g(s) == Some((s.own.key@, s.own.value@)));
    }
}

proof fn linked_or_not(spoke: Project, s: SpelledKey)
    ensures
        unlinked(spoke, s) == !sources(spoke.links@).contains(node_of(s)),
{
    let persisted = sources(spoke.links@);
    if persisted.contains(node_of(s)) {
        let i = choose|i: int| 0 <= i < persisted.len() && persisted[i] == node_of(s);
        assert(spoke.links@[i].src@ == node_of(s));
    } else {
        assert forall|i: int| 0 <= i < spoke.links@.len() implies (#[trigger] spoke.links@[i]).src@
            != cfgkey_of(s.own.file@, s.own.key@) by {
            assert(persisted[i] == spoke.links@[i].src@);
        }
    }
}

proof fn ends_are_led_to(s: Seq<Link>, l: LinkView, k: int)
    requires
        0 <= k < seen_all(s).len(),
        same_ends(seen_all(s)[k], l),
    ensures
        leads(s, l.src, l.qualified),
{
    assert(seen_all(s)[k] == seen(s[k]));
    assert(s[k].src@ == l.src);
}

/// The reference is one of the spoke's own links, or one inferred for a key that
/// none of them starts at.
pub open spec fn has_a_reason(
    l: LinkView,
    spoke: Project,
    hub: Seq<char>,
    hub_keys: Seq<SpelledKey>,
) -> bool {
    ||| exists|i: int| 0 <= i < spoke.links@.len() && l == seen(#[trigger] spoke.links@[i])
    ||| exists|i: int|
        0 <= i < spoke.keys@.len() && is_inferred_for(l, #[trigger] spoke.keys@[i], hub, hub_keys)
            && unlinked(spoke, spoke.keys@[i])
}

/// The link leads from the spoke's key to the placeholder of the hub key that it is
/// matched to: inferred, as sure as the match, and into the hub.
pub open spec fn is_inferred_for(
    l: LinkView,
    s: SpelledKey,
    hub: Seq<char>,
    hub_keys: Seq<SpelledKey>,
) -> bool {
    matched(s, hub_keys) is Some && {
        let h = (matched(s, hub_keys)->0).0;
        let t = (matched(s, hub_keys)->0).1;
        let q = qualified_of(hub, cfgkey_of(h.own.file@, h.own.key@));
        &&& l.src == cfgkey_of(s.own.file@, s.own.key@)
        &&& l.key == extref_of(q)
        &&& l.project == Some(hub)
        &&& l.qualified == Some(q)
        &&& l.provenance == Provenance::Inferred
        &&& l.confidence == Some(score_of(t))
    }
}

proof fn a_live_link_is_inferred(spoke: Project, hub: Seq<char>, hub_keys: Seq<SpelledKey>, m: int)
    requires
        0 <= m < picked(spoke.keys@, inferred(hub, hub_keys, sources(spoke.links@))).len(),
    ensures
        has_a_reason(
            picked(spoke.keys@, inferred(hub, hub_keys, sources(spoke.links@)))[m],
            spoke,
            hub,
            hub_keys,
        ),
{
    let f = inferred(hub, hub_keys, sources(spoke.links@));
    let live = picked(spoke.keys@, f);
    picked_facts(spoke.keys@, f);
    let l = live[m];
    assert(live.contains(l));
    let i = choose|i: int| 0 <= i < spoke.keys@.len() && f(#[trigger] spoke.keys@[i]) == Some(l);
    linked_or_not(spoke, spoke.keys@[i]);
    assert(is_inferred_for(l, spoke.keys@[i], hub, hub_keys));
}

/// No reference of a spoke is made up: each is one of its own, as it is, or was
/// inferred for an unlinked key of its own from the match of that key. Without a
/// hub there are its own alone, and no orphan.
pub proof fn every_reference_has_a_reason(
    r: SpokeLinks,
    spoke: Project,
    hub: Option<Seq<char>>,
    hub_keys: Seq<SpelledKey>,
    k: int,
)
    requires
        corresponds(r, spoke, hub, hub_keys),
        0 <= k < r.refs@.len(),
    ensures
        hub is Some ==> has_a_reason(seen(r.refs@[k]), spoke, hub->0, hub_keys),
        hub is None ==> seen(r.refs@[k]) == seen(spoke.links@[k]) && r.refs@.len()
            == spoke.links@.len() && r.orphans@.len() == 0,
{
    let refs = seen_all(r.refs@);
    assert(refs[k] == seen(r.refs@[k]));
    let own = seen_all(spoke.links@);
    if let Some(h) = hub {
        let f = inferred(h, hub_keys, sources(spoke.links@));
        let live = picked(spoke.keys@, f);
        let m = a_kept_link_was_there(own + live, k);
        if m < own.len() {
            assert((own + live)[m] == own[m]);
            assert(own[m] == seen(spoke.links@[m]));
        } else {
            assert((own + live)[m] == live[m - own.len()]);
            a_live_link_is_inferred(spoke, h, hub_keys, m - own.len());
        }
    } else {
        assert(refs.len() == r.refs@.len());
        assert(own.len() == spoke.links@.len());
        assert(own[k] == seen(spoke.links@[k]));
    }
}

// ---------------------------------------------------------------------------
// The topology
// ---------------------------------------------------------------------------

/// Following the link gave no node, or found that its target is not there.
pub open spec fn is_gone(f: FollowedLink) -> bool {
    match f.followed {
        Ok(n) => n is None,
        Err(e) => dangles(e.fault),
    }
}

/// A project is shown around the hub exactly if it is not the hub and has a link
/// or an orphan; each with its number of keys, and with its drift: its orphans and
/// its links whose target is gone.
pub proof fn every_spoke_is_summed_up(t: Topology, hub: Option<Seq<char>>, spokes: Seq<SpokeView>)
    requires
        topology_is(t, hub, spokes),
    ensures
        opt_view(t.hub) == hub,
        forall|i: int|
            #![trigger spokes[i]]
            0 <= i < spokes.len() && hub != Some(spokes[i].name@) && (spokes[i].refs@.len() > 0
                || spokes[i].orphans@.len() > 0) ==> summaries_view(t.spokes@).contains(
                (
                    spokes[i].name@,
                    spokes[i].name@,
                    spokes[i].keys@.len(),
                    spokes[i].orphans@.len() + spokes[i].refs@.filter(
                        |f: FollowedLink| is_gone(f),
                    ).len(),
                ),
            ),
        t.spokes@.len() == spokes.filter(
            |s: SpokeView|
                hub != Some(s.name@) && (s.refs@.len() > 0 || s.orphans@.len() > 0),
        ).len(),
{
    let f = summary(hub);
    picked_facts(spokes, f);
    picked_count(
        spokes,
        f,
        |s: SpokeView| hub != Some(s.name@) && (s.refs@.len() > 0 || s.orphans@.len() > 0),
    );
    assert(summaries_view(t.spokes@).len() == t.spokes@.len());
    assert forall|i: int|
        #![trigger spokes[i]]
        0 <= i < spokes.len() && hub != Some(spokes[i].name@) && (spokes[i].refs@.len() > 0
            || spokes[i].orphans@.len() > 0) implies summaries_view(t.spokes@).contains(
        (
            spokes[i].name@,
            spokes[i].name@,
            spokes[i].keys@.len(),
            spokes[i].orphans@.len() + spokes[i].refs@.filter(|f: FollowedLink| is_gone(f)).len(),
        ),
    ) by {
        let s = spokes[i];
        drift_is_what_is_gone(s);
        assert(f(s) == Some((s.name@, s.name@, s.keys@.len(), drift_of(s))));
    }
}

proof fn drift_is_what_is_gone(s: SpokeView)
    ensures
        drift_of(s) == s.orphans@.len() + s.refs@.filter(|f: FollowedLink| is_gone(f)).len(),
{
    crate::seqs::filter_alike(
        s.refs@,
        s.refs@,
        leads_nowhere(),
        |f: FollowedLink| is_gone(f),
        |f: FollowedLink| f,
    );
}

/// Every link of every spoke that names a target is drawn, from the spoke's node
/// to the target, with its provenance and confidence; and only links of spokes are.
pub proof fn every_link_of_a_spoke_is_drawn(t: Topology, hub: Option<Seq<char>>, spokes: Seq<SpokeView>)
    requires
        topology_is(t, hub, spokes),
    ensures
        forall|i: int, j: int|
            #![trigger spokes[i].refs@[j]]
            0 <= i < spokes.len() && hub != Some(spokes[i].name@) && 0 <= j < spokes[i].refs@.len()
                && spokes[i].refs@[j].link.node.qualified is Some ==> rows_view(t.links@).contains(
                (
                    qualified_of(spokes[i].name@, spokes[i].refs@[j].link.src@),
                    spokes[i].refs@[j].link.node.qualified->0@,
                    spokes[i].refs@[j].link.provenance.token(),
                    shown(spokes[i].refs@[j].link.confidence),
                ),
            ),
        forall|k: int|
            0 <= k < t.links@.len() ==> drawn_from(
                #[trigger] rows_view(t.links@)[k],
                hub,
                spokes,
            ),
{
    rows_are_of_spokes(spokes, hub);
    assert forall|i: int, j: int|
        #![trigger spokes[i].refs@[j]]
        0 <= i < spokes.len() && hub != Some(spokes[i].name@) && 0 <= j < spokes[i].refs@.len()
            && spokes[i].refs@[j].link.node.qualified is Some implies rows_view(t.links@).contains(
        (
            qualified_of(spokes[i].name@, spokes[i].refs@[j].link.src@),
            spokes[i].refs@[j].link.node.qualified->0@,
            spokes[i].refs@[j].link.provenance.token(),
            shown(spokes[i].refs@[j].link.confidence),
        ),
    ) by {
        a_spokes_link_is_a_row(spokes, hub, i, j);
    }
}

/// The row is that of a link of a project that is not the hub.
pub open spec fn drawn_from(
    x: (Seq<char>, Seq<char>, Seq<char>, Option<(u64, Seq<char>)>),
    hub: Option<Seq<char>>,
    spokes: Seq<SpokeView>,
) -> bool {
    exists|i: int, j: int|
        #![trigger spokes[i].refs@[j]]
        0 <= i < spokes.len() && 0 <= j < spokes[i].refs@.len() && hub != Some(spokes[i].name@)
            && spokes[i].refs@[j].link.node.qualified is Some && x == (
            qualified_of(spokes[i].name@, spokes[i].refs@[j].link.src@),
            spokes[i].refs@[j].link.node.qualified->0@,
            spokes[i].refs@[j].link.provenance.token(),
            shown(spokes[i].refs@[j].link.confidence),
        )
}

proof fn a_spokes_link_is_a_row(spokes: Seq<SpokeView>, hub: Option<Seq<char>>, i: int, j: int)
    requires
        0 <= i < spokes.len(),
        hub != Some(spokes[i].name@),
        0 <= j < spokes[i].refs@.len(),
        spokes[i].refs@[j].link.node.qualified is Some,
    ensures
        rows(spokes, hub).contains(
            (
                qualified_of(spokes[i].name@, spokes[i].refs@[j].link.src@),
                spokes[i].refs@[j].link.node.qualified->0@,
                spokes[i].refs@[j].link.provenance.token(),
                shown(spokes[i].refs@[j].link.confidence),
            ),
        ),
    decreases spokes.len(),
{
    let t = spokes.drop_last();
    let a = rows(t, hub);
    let all = rows(spokes, hub);
    let last = spokes.last();
    let f = row(last.name@);
    if i < t.len() {
        assert(t[i] == spokes[i]);
        a_spokes_link_is_a_row(t, hub, i, j);
        let x = f_row(spokes[i], j);
        let k = choose|k: int| 0 <= k < a.len() && a[k] == x;
        assert(all[k] == a[k]);
    } else {
        picked_facts(last.refs@, f);
        let x = f_row(last, j);
        assert(f(last.refs@[j]) == Some(x));
        let b = picked(last.refs@, f);
        assert(b.contains(x));
        assert(is_spoke(hub)(last));
        let k = choose|k: int| 0 <= k < b.len() && b[k] == x;
        assert(all[a.len() + k] == x);
    }
}

spec fn f_row(s: SpokeView, j: int) -> (Seq<char>, Seq<char>, Seq<char>, Option<(u64, Seq<char>)>) {
    (
        qualified_of(s.name@, s.refs@[j].link.src@),
        s.refs@[j].link.node.qualified->0@,
        s.refs@[j].link.provenance.token(),
        shown(s.refs@[j].link.confidence),
    )
}

proof fn rows_are_of_spokes(spokes: Seq<SpokeView>, hub: Option<Seq<char>>)
    ensures
        forall|k: int|
            0 <= k < rows(spokes, hub).len() ==> drawn_from(
                #[trigger] rows(spokes, hub)[k],
                hub,
                spokes,
            ),
    decreases spokes.len(),
{
    if spokes.len() > 0 {
        let t = spokes.drop_last();
        let a = rows(t, hub);
        let all = rows(spokes, hub);
        let last = spokes.last();
        let f = row(last.name@);
        rows_are_of_spokes(t, hub);
        picked_facts(last.refs@, f);
        assert forall|k: int| 0 <= k < all.len() implies drawn_from(#[trigger] all[k], hub, spokes) by {
            if k < a.len() {
                assert(all[k] == a[k]);
                let (i, j) = choose|i: int, j: int|
                    #![trigger t[i].refs@[j]]
                    0 <= i < t.len() && 0 <= j < t[i].refs@.len() && hub != Some(t[i].name@)
                        && t[i].refs@[j].link.node.qualified is Some && a[k] == f_row(t[i], j);
                assert(spokes[i].refs@[j] == t[i].refs@[j]);
            } else {
                let b = picked(last.refs@, f);
                assert(b.contains(b[k - a.len()]));
                let j = choose|j: int|
                    0 <= j < last.refs@.len() && f(#[trigger] last.refs@[j]) == Some(all[k]);
                let i = spokes.len() - 1;
                assert(spokes[i].refs@[j] == last.refs@[j]);
            }
        }
    }
}

/// A failure that is more than a dangling link is never passed over: where any
/// link of any spoke meets one, not everything follows.
pub proof fn no_failure_is_passed_over(
    spokes: Seq<SpokeView>,
    hub: Option<Seq<char>>,
    i: int,
    j: int,
)
    requires
        0 <= i < spokes.len(),
        hub != Some(spokes[i].name@),
        0 <= j < spokes[i].refs@.len(),
        spokes[i].refs@[j].followed is Err,
        !dangles(spokes[i].refs@[j].followed->Err_0.fault),
    ensures
        !all_follow(all_outcomes(spokes, hub)),
    decreases spokes.len(),
{
    let t = spokes.drop_last();
    let a = all_outcomes(t, hub);
    let all = all_outcomes(spokes, hub);
    if i < t.len() {
        assert(t[i] == spokes[i]);
        no_failure_is_passed_over(t, hub, i, j);
        let k = choose|k: int| 0 <= k < a.len() && hard(#[trigger] a[k]);
        assert(all[k] == a[k]);
    } else {
        let b = outcomes(spokes.last().refs@);
        assert(is_spoke(hub)(spokes.last()));
        assert(b[j] == spokes[i].refs@[j].followed);
        assert(all[a.len() + j] == b[j]);
        assert(hard(all[a.len() + j]));
    }
}

// ---------------------------------------------------------------------------
// The matrix's inputs
// ---------------------------------------------------------------------------

/// No config key from `from` on has the node `src`.
pub open spec fn none_from(keys: Seq<ConfigKey>, src: Seq<char>, from: int) -> bool {
    forall|j: int|
        from <= j < keys.len() ==> cfgkey_of((#[trigger] keys[j]).file@, keys[j].key@) != src
}

/// A link starts at the config key whose node it names, the last where several
/// are; a node that is no config key of the project stands for itself, with no
/// value.
pub proof fn a_link_starts_at_its_key(keys: Seq<ConfigKey>, src: Seq<char>, i: int)
    ensures
        0 <= i < keys.len() && cfgkey_of(keys[i].file@, keys[i].key@) == src && none_from(
            keys,
            src,
            i + 1,
        ) ==> start_of(keys, src) == (keys[i].key@, keys[i].value@),
        none_from(keys, src, 0) ==> start_of(keys, src) == (src, Seq::<char>::empty()),
    decreases keys.len(),
{
    if keys.len() > 0 {
        let t = keys.drop_last();
        let last = keys.len() - 1;
        a_link_starts_at_its_key(t, src, i);
        assert forall|j: int| 0 <= j < t.len() implies #[trigger] t[j] == keys[j] by {}
        if 0 <= i < last && none_from(keys, src, i + 1) {
            assert(cfgkey_of(keys[last].file@, keys[last].key@) != src);
            assert(key_at(keys, src) == key_at(t, src));
            assert(none_from(t, src, i + 1));
        }
        if none_from(keys, src, 0) {
            assert(cfgkey_of(keys[last].file@, keys[last].key@) != src);
            assert(key_at(keys, src) == key_at(t, src));
            assert(none_from(t, src, 0));
        }
    }
}

/// The hub's value of a key is the last that was read of it; a key that was not
/// read has none.
pub proof fn the_last_value_of_a_key_counts(keys: Seq<ConfigKey>, key: Seq<char>)
    ensures
        forall|i: int|
            #![trigger keys[i]]
            0 <= i < keys.len() && keys[i].key@ == key && (forall|j: int|
                i < j < keys.len() ==> (#[trigger] keys[j]).key@ != key) ==> values_of(
                keys,
            ).contains_key(key) && values_of(keys)[key] == keys[i].value,
        (forall|j: int| 0 <= j < keys.len() ==> (#[trigger] keys[j]).key@ != key) ==> !values_of(
            keys,
        ).contains_key(key),
    decreases keys.len(),
{
    if keys.len() > 0 {
        let t = keys.drop_last();
        let last = keys.len() - 1;
        the_last_value_of_a_key_counts(t, key);
        assert forall|i: int|
            #![trigger keys[i]]
            0 <= i < keys.len() && keys[i].key@ == key && (forall|j: int|
                i < j < keys.len() ==> (#[trigger] keys[j]).key@ != key) implies values_of(
            keys,
        ).contains_key(key) && values_of(keys)[key] == keys[i].value by {
            if i < last {
                assert(keys[last].key@ != key);
                assert(t[i] == keys[i]);
                assert forall|j: int| i < j < t.len() implies (#[trigger] t[j]).key@ != key by {
                    assert(t[j] == keys[j]);
                }
            }
        }
        if forall|j: int| 0 <= j < keys.len() ==> (#[trigger] keys[j]).key@ != key {
            assert(keys[last].key@ != key);
            assert forall|j: int| 0 <= j < t.len() implies (#[trigger] t[j]).key@ != key by {
                assert(t[j] == keys[j]);
            }
        }
    }
}

/// What a spoke feeds into the matrix: for each link whose target is there an
/// override of that key, with the value and key the link starts at and the link's
/// own provenance; for each whose target is gone an orphan; and every orphan that
/// it has. Nothing of it is pinned.
pub proof fn a_spoke_feeds_all_it_has(i: SpokeInput, s: SpokeView)
    requires
        input_is(i, s),
    ensures
        i.name@ == s.name@,
        i.pin is None,
        forall|k: int|
            #![trigger s.refs@[k]]
            0 <= k < s.refs@.len() && s.refs@[k].followed is Ok && s.refs@[k].followed->Ok_0 is Some
                ==> exists|m: int|
                0 <= m < i.matches@.len() && feeds(#[trigger] match_views(i.matches@)[m], s, k),
        forall|k: int|
            #![trigger s.refs@[k]]
            0 <= k < s.refs@.len() && is_gone(s.refs@[k]) ==> pairs(i.orphans@).contains(
                start_of(s.keys@, s.refs@[k].link.src@),
            ),
        forall|k: int|
            #![trigger s.orphans@[k]]
            0 <= k < s.orphans@.len() ==> pairs(i.orphans@).contains(
                (s.orphans@[k].0@, s.orphans@[k].1@),
            ),
        i.matches@.len() == s.refs@.filter(
            |f: FollowedLink| f.followed is Ok && f.followed->Ok_0 is Some,
        ).len(),
        i.orphans@.len() == s.refs@.filter(|f: FollowedLink| is_gone(f)).len() + s.orphans@.len(),
{
    let f = overriding(s.keys@);
    let g = drifting(s.keys@);
    let ms = picked(s.refs@, f);
    let gone = picked(s.refs@, g);
    let own = pairs(s.orphans@);
    picked_facts(s.refs@, f);
    picked_facts(s.refs@, g);
    picked_count(s.refs@, f, |x: FollowedLink| x.followed is Ok && x.followed->Ok_0 is Some);
    picked_count(s.refs@, g, |x: FollowedLink| is_gone(x));
    assert(match_views(i.matches@).len() == i.matches@.len());
    assert(pairs(i.orphans@).len() == i.orphans@.len());
    assert(own.len() == s.orphans@.len());
    assert forall|k: int|
        #![trigger s.refs@[k]]
        0 <= k < s.refs@.len() && s.refs@[k].followed is Ok && s.refs@[k].followed->Ok_0 is Some implies exists|
        m: int,
    | 0 <= m < i.matches@.len() && feeds(#[trigger] match_views(i.matches@)[m], s, k) by {
        let x = f(s.refs@[k])->0;
        assert(f(s.refs@[k]) == Some(x));
        assert(ms.contains(x));
        let m = choose|m: int| 0 <= m < ms.len() && ms[m] == x;
        assert(feeds(match_views(i.matches@)[m], s, k));
    }
    assert forall|k: int|
        #![trigger s.refs@[k]]
        0 <= k < s.refs@.len() && is_gone(s.refs@[k]) implies pairs(i.orphans@).contains(
        start_of(s.keys@, s.refs@[k].link.src@),
    ) by {
        let x = start_of(s.keys@, s.refs@[k].link.src@);
        assert(g(s.refs@[k]) == Some(x));
        assert(gone.contains(x));
        let m = choose|m: int| 0 <= m < gone.len() && gone[m] == x;
        assert((gone + own)[m] == x);
    }
    assert forall|k: int|
        #![trigger s.orphans@[k]]
        0 <= k < s.orphans@.len() implies pairs(i.orphans@).contains(
        (s.orphans@[k].0@, s.orphans@[k].1@),
    ) by {
        assert(own[k] == (s.orphans@[k].0@, s.orphans@[k].1@));
        assert((gone + own)[gone.len() + k] == own[k]);
    }
}

/// The match is what the link at `k` feeds: the override of the node it leads to.
pub open spec fn feeds(m: MatchView, s: SpokeView, k: int) -> bool {
    let l = s.refs@[k].link;
    let n = s.refs@[k].followed->Ok_0->0;
    &&& m.hub_key == n.name@
    &&& (m.spoke_key, m.spoke_value) == start_of(s.keys@, l.src@)
    &&& m.provenance == l.provenance
    &&& m.confidence == (match shown(l.confidence) {
        Some(c) => c,
        None => (0u64, "0.00"@),
    })
}

/// Every project but the hub that has a link or an orphan feeds the matrix, each
/// once and in order; the hub and a project with neither do not.
pub proof fn every_spoke_feeds_the_matrix(
    inputs: Seq<SpokeInput>,
    spokes: Seq<SpokeView>,
    hub: Option<Seq<char>>,
)
    requires
        inputs_are(inputs, spokes, hub),
    ensures
        forall|i: int|
            #![trigger spokes[i]]
            0 <= i < spokes.len() && hub != Some(spokes[i].name@) && (spokes[i].refs@.len() > 0
                || spokes[i].orphans@.len() > 0) ==> exists|k: int|
                0 <= k < inputs.len() && input_is(#[trigger] inputs[k], spokes[i]),
        inputs.len() == spokes.filter(
            |s: SpokeView|
                hub != Some(s.name@) && (s.refs@.len() > 0 || s.orphans@.len() > 0),
        ).len(),
        forall|k: int|
            0 <= k < inputs.len() ==> hub != Some((#[trigger] inputs[k]).name@),
{
    let p = is_spoke(hub);
    let q = |s: SpokeView| hub != Some(s.name@) && (s.refs@.len() > 0 || s.orphans@.len() > 0);
    let fed = spokes.filter(p);
    filtered(spokes, p);
    crate::seqs::filter_alike(spokes, spokes, p, q, |s: SpokeView| s);
    assert forall|i: int|
        #![trigger spokes[i]]
        0 <= i < spokes.len() && hub != Some(spokes[i].name@) && (spokes[i].refs@.len() > 0
            || spokes[i].orphans@.len() > 0) implies exists|k: int|
        0 <= k < inputs.len() && input_is(#[trigger] inputs[k], spokes[i]) by {
        assert(p(spokes[i]));
        assert(fed.contains(spokes[i]));
        let k = choose|k: int| 0 <= k < fed.len() && fed[k] == spokes[i];
        assert(input_is(inputs[k], spokes[i]));
    }
    assert forall|k: int| 0 <= k < inputs.len() implies hub != Some((#[trigger] inputs[k]).name@) by {
        assert(p(fed[k]));
        assert(input_is(inputs[k], fed[k]));
    }
}

/// A link of a project is drawn from its own key to its target, with its provenance
/// and confidence. It drifts exactly where no node was reached, and names the node
/// exactly where one was.
pub proof fn a_link_drifts_where_nothing_is_reached(
    r: ProjectLink,
    f: FollowedLink,
    keys: Seq<ConfigKey>,
)
    requires
        drawn(r, f, keys),
    ensures
        r.drift <==> !(f.followed is Ok && f.followed->Ok_0 is Some),
        r.to_name is Some <==> f.followed is Ok && f.followed->Ok_0 is Some,
        r.to_name is Some ==> r.to_name->0@ == (f.followed->Ok_0)->0.name@,
        r.from@ == f.link.src@,
        r.from_name@ == start_of(keys, f.link.src@).0,
        r.to@ == f.link.node.key@,
        f.link.node.qualified is Some ==> r.to_qualified@ == f.link.node.qualified->0@,
        f.link.node.qualified is None ==> r.to_qualified@.len() == 0,
        r.provenance@ == f.link.provenance.token(),
        r.confidence == f.link.confidence,
{
}

/// The file of a key without a `#` is all of it, and what is no config key has no
/// file.
pub proof fn only_a_config_key_has_a_file(rest: Seq<char>, other: Seq<char>)
    requires
        !crate::text::contains(rest, "#"@),
        !crate::text::begins(other, "cfgkey:"@),
    ensures
        file_of("cfgkey:"@ + rest) == rest,
        file_of(other).len() == 0,
{
    reveal_strlit("cfgkey:");
    let key = "cfgkey:"@ + rest;
    assert(key.subrange(0, 7) =~= "cfgkey:"@);
    assert(crate::text::begins(key, "cfgkey:"@));
    assert(key.skip(7) =~= rest);
}

/// Where following fails, the answer is that of the first failure that is more than
/// a dangling link: its status, and its own words.
pub proof fn the_first_failure_answers(
    e: ApiError,
    fs: Seq<Result<Option<Node>, WorkspaceError>>,
    i: int,
)
    requires
        fails_with(e, fs),
        0 <= i < fs.len(),
        fs[i] is Err && !dangles(fs[i]->Err_0.fault),
        forall|j: int| 0 <= j < i ==> ((#[trigger] fs[j]) is Ok || dangles(fs[j]->Err_0.fault)),
    ensures
        e.status_of() == fault_status(fs[i]->Err_0.fault),
        e.text() == fs[i]->Err_0.text@,
{
    let k = choose|k: int|
        0 <= k < fs.len() && hard(#[trigger] fs[k]) && all_follow(fs.take(k)) && e.status_of()
            == fault_status(fs[k]->Err_0.fault) && e.text() == fs[k]->Err_0.text@;
    if k < i {
        assert(fs[k] is Ok || dangles(fs[k]->Err_0.fault));
    }
    if i < k {
        assert(fs.take(k)[i] == fs[i]);
        assert(hard(fs.take(k)[i]));
    }
}

} // verus!
