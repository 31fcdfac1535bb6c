//! Writing the inferred links down: what each project is to hold, what is
//! answered, and that writing again changes nothing.
use vstd::prelude::*;

use crate::graph::{cfgkey_of, extref_of, qualified_of, Provenance};
use crate::graph_api::hub::{
    any_link, has_keys, is_hub, is_linked_hub, is_richest, pointing, points_at, richer, Project,
};
use crate::infer_links::{
    facts_record, facts_view, has_match, key_view, keys_view, link_facts, match_against_hub,
    match_view, matched, matched_alike, recorded_alike, records, score_of,
    writing_again_writes_the_same, FactSet, FactsView, KeyMatch, SpelledKey,
};
use crate::seqs::{filter_alike, filter_step};
use crate::text::{copy_opt, opt_view, same};

verus! {

// ---------------------------------------------------------------------------
// The plan
// ---------------------------------------------------------------------------

/// What is answered where there is no hub.
pub const NOTHING_TO_INFER: &'static str = "no cross-repo hub — nothing to infer";

/// What is to be written into one spoke.
pub struct SpokePlan {
    pub name: String,
    pub matches: usize,
    pub facts: FactSet,
}

/// The project is not the hub.
pub open spec fn is_not(hub: Seq<char>) -> spec_fn(Project) -> bool {
    |p: Project| p.name@ != hub
}

/// `w` is what is to be written into the project `p`: the facts of all its
/// matches, and none where it has no match, which clears what was there.
pub open spec fn plan_is(
    w: SpokePlan,
    p: Project,
    hub: Seq<char>,
    hub_keys: Seq<SpelledKey>,
    stamp: Seq<char>,
) -> bool {
    let met = p.keys@.filter(has_match(hub_keys));
    &&& w.name@ == p.name@
    &&& w.matches == met.len()
    &&& exists|ms: Seq<KeyMatch>| #[trigger]
        facts_record(w.facts, hub, ms, stamp) && ms.len() == met.len() && forall|i: int|
            0 <= i < ms.len() ==> records(#[trigger] ms[i], met[i], hub_keys)
}

/// `r` is what is to be written: into each project but the hub what `plan_is`
/// says, in the order of the projects, and nothing where there is no hub.
pub open spec fn plans_are(
    r: Seq<SpokePlan>,
    hub: Option<Seq<char>>,
    hub_keys: Seq<SpelledKey>,
    projects: Seq<Project>,
    stamp: Seq<char>,
) -> bool {
    match hub {
        None => r.len() == 0,
        Some(h) => {
            &&& r.len() == projects.filter(is_not(h)).len()
            &&& forall|i: int|
                #![trigger r[i]]
                0 <= i < r.len() ==> plan_is(
                    r[i],
                    projects.filter(is_not(h))[i],
                    h,
                    hub_keys,
                    stamp,
                )
        },
    }
}

fn plans_for(hub: &str, hub_keys: &Vec<SpelledKey>, projects: &Vec<Project>, stamp: &str) -> (r:
    Vec<SpokePlan>)
    ensures
        r@.len() == projects@.filter(is_not(hub@)).len(),
        forall|i: int|
            #![trigger r@[i]]
            0 <= i < r@.len() ==> plan_is(
                r@[i],
                projects@.filter(is_not(hub@))[i],
                hub@,
                hub_keys@,
                stamp@,
            ),
{
    let ghost p = is_not(hub@);
    let mut r: Vec<SpokePlan> = Vec::new();
    let mut i: usize = 0;
    proof {
        reveal(Seq::filter);
        assert(projects@.take(0).filter(p).len() == 0);
    }
    while i < projects.len()
        invariant
            i <= projects@.len(),
            p == is_not(hub@),
            r@.len() == projects@.take(i as int).filter(p).len(),
            forall|k: int|
                #![trigger r@[k]]
                0 <= k < r@.len() ==> plan_is(
                    r@[k],
                    projects@.take(i as int).filter(p)[k],
                    hub@,
                    hub_keys@,
                    stamp@,
                ),
        decreases projects@.len() - i,
    {
        proof {
            filter_step(projects@, i as int, p);
        }
        let one = &projects[i];
        if !same(one.name.as_str(), hub) {
            let ghost was = r@;
            let ghost before = projects@.take(i as int).filter(p);
            let (matches, _) = match_against_hub(&one.keys, hub_keys);
            let facts = link_facts(hub, &matches, stamp);
            let w = SpokePlan { name: one.name.clone(), matches: matches.len(), facts };
            assert(facts_record(w.facts, hub@, matches@, stamp@));
            assert(plan_is(w, *one, hub@, hub_keys@, stamp@));
            r.push(w);
            proof {
                let now = projects@.take(i + 1).filter(p);
                assert(now == before.push(*one));
                assert forall|k: int| #![trigger r@[k]] 0 <= k < r@.len() implies plan_is(
                    r@[k],
                    now[k],
                    hub@,
                    hub_keys@,
                    stamp@,
                ) by {
                    if k < was.len() {
                        assert(r@[k] == was[k]);
                        assert(now[k] == before[k]);
                    }
                }
            }
        }
        i = i + 1;
    }
    assert(projects@.take(projects@.len() as int) =~= projects@);
    r
}

/// What is to be written into each project but the hub.
pub fn write_plan(
    hub: &Option<String>,
    hub_keys: &Vec<SpelledKey>,
    projects: &Vec<Project>,
    stamp: &str,
) -> (r: Vec<SpokePlan>)
    ensures
        plans_are(r@, opt_view(*hub), hub_keys@, projects@, stamp@),
{
    match hub {
        None => Vec::new(),
        Some(h) => plans_for(h.as_str(), hub_keys, projects, stamp),
    }
}

// ---------------------------------------------------------------------------
// The answer
// ---------------------------------------------------------------------------

/// The sum of these counts.
pub open spec fn sum_of(counts: Seq<usize>) -> nat
    decreases counts.len(),
{
    if counts.len() == 0 {
        0
    } else {
        sum_of(counts.drop_last()) + counts.last() as nat
    }
}

/// How many edges were written, all spokes together.
pub fn total_written(counts: &Vec<usize>) -> (r: u128)
    ensures
        r == sum_of(counts@),
{
    let mut n: u128 = 0;
    let mut i: usize = 0;
    while i < counts.len()
        invariant
            i <= counts@.len(),
            n == sum_of(counts@.take(i as int)),
            n <= i * 0xFFFF_FFFF_FFFF_FFFF,
        decreases counts@.len() - i,
    {
        assert(counts@.take(i + 1).drop_last() =~= counts@.take(i as int));
        n = n + counts[i] as u128;
        i = i + 1;
    }
    assert(counts@.take(counts@.len() as int) =~= counts@);
    n
}

/// What was written into one spoke.
#[derive(Debug)]
pub struct SpokeWritten {
    pub name: String,
    pub matches: usize,
    /// How many edges the store took.
    pub written: usize,
}

/// What is answered after writing.
#[derive(Debug)]
pub struct WriteReply {
    pub hub: Option<String>,
    /// How many edges were written, all spokes together.
    pub written: u128,
    pub spokes: Vec<SpokeWritten>,
    pub note: Option<&'static str>,
}

/// How many edges each spoke's store took.
pub open spec fn counts_of(s: Seq<SpokeWritten>) -> Seq<usize> {
    s.map_values(|w: SpokeWritten| w.written)
}

/// `r` answers that the stores took `counts` edges of what was planned.
pub open spec fn reply_is(
    r: WriteReply,
    hub: Option<Seq<char>>,
    plans: Seq<SpokePlan>,
    counts: Seq<usize>,
) -> bool {
    &&& opt_view(r.hub) == hub
    &&& r.written == sum_of(counts)
    &&& counts_of(r.spokes@) == counts
    &&& r.spokes@.len() == plans.len()
    &&& forall|i: int|
        #![trigger r.spokes@[i]]
        0 <= i < plans.len() ==> r.spokes@[i].name@ == plans[i].name@ && r.spokes@[i].matches
            == plans[i].matches
    &&& match r.note {
        Some(n) => hub is None && n@ == NOTHING_TO_INFER@,
        None => hub is Some,
    }
}

/// Answers what was written: `counts` are how many edges the store of each
/// planned spoke took.
pub fn write_reply(hub: &Option<String>, plans: &Vec<SpokePlan>, counts: &Vec<usize>) -> (r:
    WriteReply)
    requires
        plans@.len() == counts@.len(),
    ensures
        reply_is(r, opt_view(*hub), plans@, counts@),
{
    let mut spokes: Vec<SpokeWritten> = Vec::new();
    let mut i: usize = 0;
    while i < plans.len()
        invariant
            i <= plans@.len(),
            plans@.len() == counts@.len(),
            spokes@.len() == i,
            forall|k: int|
                #![trigger spokes@[k]]
                0 <= k < i ==> spokes@[k].name@ == plans@[k].name@ && spokes@[k].matches
                    == plans@[k].matches && spokes@[k].written == counts@[k],
        decreases plans@.len() - i,
    {
        spokes.push(
            SpokeWritten {
                name: plans[i].name.clone(),
                matches: plans[i].matches,
                written: counts[i],
            },
        );
        i = i + 1;
    }
    assert(counts_of(spokes@) =~= counts@);
    let note = match hub {
        Some(_) => None,
        None => Some(NOTHING_TO_INFER),
    };
    WriteReply { hub: copy_opt(hub), written: total_written(counts), spokes, note }
}

// ---------------------------------------------------------------------------
// Laws
// ---------------------------------------------------------------------------

/// A plan by its texts.
#[verifier::ext_equal]
pub struct PlanView {
    pub name: Seq<char>,
    pub matches: nat,
    pub facts: FactsView,
}

/// A plan by its texts.
pub open spec fn plan_view(w: SpokePlan) -> PlanView {
    PlanView { name: w.name@, matches: w.matches as nat, facts: facts_view(w.facts) }
}

/// A project by its name and its config keys, which a plan depends on, whatever
/// links it holds.
pub open spec fn keyed(p: Project) -> (
    Seq<char>,
    Seq<(Seq<char>, Seq<char>, Seq<char>, Seq<char>, Seq<char>)>,
) {
    (p.name@, keys_view(p.keys@))
}

/// The same projects, with the same config keys.
pub open spec fn same_projects(a: Seq<Project>, b: Seq<Project>) -> bool {
    a.map_values(|p: Project| keyed(p)) == b.map_values(|p: Project| keyed(p))
}

proof fn plans_alike(
    a: SpokePlan,
    b: SpokePlan,
    p: Project,
    q: Project,
    hub: Seq<char>,
    hub_keys: Seq<SpelledKey>,
    again: Seq<SpelledKey>,
    stamp: Seq<char>,
)
    requires
        plan_is(a, p, hub, hub_keys, stamp),
        plan_is(b, q, hub, again, stamp),
        keyed(p) == keyed(q),
        keys_view(hub_keys) == keys_view(again),
    ensures
        plan_view(a) == plan_view(b),
{
    let x = p.keys@;
    let y = q.keys@;
    let v = |k: SpelledKey| key_view(k);
    assert(keys_view(x).len() == keys_view(y).len());
    assert forall|i: int| 0 <= i < x.len() implies #[trigger] v(x[i]) == v(y[i]) && has_match(
        hub_keys,
    )(x[i]) == has_match(again)(y[i]) by {
        assert(keys_view(x)[i] == keys_view(y)[i]);
        matched_alike(x[i], y[i], hub_keys, again);
    }
    filter_alike(x, y, has_match(hub_keys), has_match(again), v);
    let xs = x.filter(has_match(hub_keys));
    let ys = y.filter(has_match(again));
    let ms = choose|ms: Seq<KeyMatch>| #[trigger]
        facts_record(a.facts, hub, ms, stamp) && ms.len() == xs.len() && forall|i: int|
            0 <= i < ms.len() ==> records(#[trigger] ms[i], xs[i], hub_keys);
    let ns = choose|ns: Seq<KeyMatch>| #[trigger]
        facts_record(b.facts, hub, ns, stamp) && ns.len() == ys.len() && forall|i: int|
            0 <= i < ns.len() ==> records(#[trigger] ns[i], ys[i], again);
    assert forall|i: int| 0 <= i < ms.len() implies match_view(#[trigger] ms[i]) == match_view(
        ns[i],
    ) by {
        assert(records(ms[i], xs[i], hub_keys));
        assert(records(ns[i], ys[i], again));
        assert(v(xs[i]) == v(ys[i]));
        recorded_alike(ms[i], ns[i], xs[i], ys[i], hub_keys, again);
    }
    writing_again_writes_the_same(a.facts, b.facts, hub, ms, ns, stamp);
}

/// Writing again writes the same: as long as no project's config keys change,
/// and whatever links have been written since, the second plan has the same
/// spokes in the same order, each with the same count and the very same facts.
/// Where a layer of facts is replaced by an equal one, no node and no edge is
/// gained or lost.
pub proof fn writing_again_plans_the_same(
    first: Seq<SpokePlan>,
    second: Seq<SpokePlan>,
    hub: Option<Seq<char>>,
    hub_keys: Seq<SpelledKey>,
    keys_again: Seq<SpelledKey>,
    projects: Seq<Project>,
    projects_again: Seq<Project>,
    stamp: Seq<char>,
)
    requires
        plans_are(first, hub, hub_keys, projects, stamp),
        plans_are(second, hub, keys_again, projects_again, stamp),
        keys_view(hub_keys) == keys_view(keys_again),
        same_projects(projects, projects_again),
    ensures
        first.map_values(|w: SpokePlan| plan_view(w)) == second.map_values(
            |w: SpokePlan| plan_view(w),
        ),
{
    let a = first.map_values(|w: SpokePlan| plan_view(w));
    let b = second.map_values(|w: SpokePlan| plan_view(w));
    if let Some(h) = hub {
        let v = |p: Project| keyed(p);
        let p = is_not(h);
        assert(projects.map_values(v).len() == projects_again.map_values(v).len());
        assert forall|i: int| 0 <= i < projects.len() implies #[trigger] v(projects[i]) == v(
            projects_again[i],
        ) && p(projects[i]) == p(projects_again[i]) by {
            assert(projects.map_values(v)[i] == projects_again.map_values(v)[i]);
        }
        filter_alike(projects, projects_again, p, p, v);
        let xs = projects.filter(p);
        let ys = projects_again.filter(p);
        assert forall|i: int| 0 <= i < first.len() implies a[i] == b[i] by {
            assert(v(xs[i]) == v(ys[i]));
            plans_alike(first[i], second[i], xs[i], ys[i], h, hub_keys, keys_again, stamp);
        }
    }
    assert(a =~= b);
}

/// Writing again leaves every spoke's store as the first writing left it: no
/// node and no edge is gained or lost. `apply` is what a store does with a layer
/// of facts; that it replaces the layer, so that applying the same facts twice is
/// applying them once, is the store's part.
pub proof fn writing_again_leaves_the_store<S>(
    first: Seq<SpokePlan>,
    second: Seq<SpokePlan>,
    hub: Option<Seq<char>>,
    hub_keys: Seq<SpelledKey>,
    keys_again: Seq<SpelledKey>,
    projects: Seq<Project>,
    projects_again: Seq<Project>,
    stamp: Seq<char>,
    apply: spec_fn(S, FactsView) -> S,
    store: S,
    i: int,
)
    requires
        plans_are(first, hub, hub_keys, projects, stamp),
        plans_are(second, hub, keys_again, projects_again, stamp),
        keys_view(hub_keys) == keys_view(keys_again),
        same_projects(projects, projects_again),
        forall|s: S, f: FactsView| #[trigger] apply(apply(s, f), f) == apply(s, f),
        0 <= i < first.len(),
    ensures
        i < second.len(),
        second[i].name@ == first[i].name@,
        ({
            let once = apply(store, facts_view(first[i].facts));
            apply(once, facts_view(second[i].facts)) == once
        }),
{
    writing_again_plans_the_same(
        first,
        second,
        hub,
        hub_keys,
        keys_again,
        projects,
        projects_again,
        stamp,
    );
    let a = first.map_values(|w: SpokePlan| plan_view(w));
    let b = second.map_values(|w: SpokePlan| plan_view(w));
    assert(a.len() == b.len());
    assert(a[i] == b[i]);
}

/// The hub is never written to, and every other project is: it has its plan.
pub proof fn the_hub_is_never_written(
    plans: Seq<SpokePlan>,
    hub: Seq<char>,
    hub_keys: Seq<SpelledKey>,
    projects: Seq<Project>,
    stamp: Seq<char>,
)
    requires
        plans_are(plans, Some(hub), hub_keys, projects, stamp),
    ensures
        forall|i: int| 0 <= i < plans.len() ==> (#[trigger] plans[i]).name@ != hub,
        forall|j: int|
            #![trigger projects[j]]
            0 <= j < projects.len() && projects[j].name@ != hub ==> exists|i: int|
                0 <= i < plans.len() && (#[trigger] plans[i]).name@ == projects[j].name@,
{
    let p = is_not(hub);
    let xs = projects.filter(p);
    crate::seqs::filtered(projects, p);
    assert forall|i: int| 0 <= i < plans.len() implies (#[trigger] plans[i]).name@ != hub by {
        assert(p(xs[i]));
    }
    assert forall|j: int|
        #![trigger projects[j]]
        0 <= j < projects.len() && projects[j].name@ != hub implies exists|i: int|
        0 <= i < plans.len() && (#[trigger] plans[i]).name@ == projects[j].name@ by {
        assert(p(projects[j]));
        assert(xs.contains(projects[j]));
        let i = choose|i: int| 0 <= i < xs.len() && xs[i] == projects[j];
        assert(plans[i].name@ == projects[j].name@);
    }
}

/// The total answered is the sum of what is answered for each spoke, and where
/// there is no hub nothing is written, no spoke is named, and a note says so.
pub proof fn the_total_is_the_sum(
    r: WriteReply,
    hub: Option<Seq<char>>,
    hub_keys: Seq<SpelledKey>,
    projects: Seq<Project>,
    stamp: Seq<char>,
    plans: Seq<SpokePlan>,
    counts: Seq<usize>,
)
    requires
        plans_are(plans, hub, hub_keys, projects, stamp),
        reply_is(r, hub, plans, counts),
    ensures
        r.written == sum_of(counts_of(r.spokes@)),
        hub is None ==> r.written == 0 && r.spokes@.len() == 0 && r.note is Some,
{
    assert(counts_of(r.spokes@).len() == r.spokes@.len());
}

/// Two answers are the same where the stores took the same counts of plans that
/// are the same.
pub proof fn the_same_is_answered(
    a: WriteReply,
    b: WriteReply,
    hub: Option<Seq<char>>,
    first: Seq<SpokePlan>,
    second: Seq<SpokePlan>,
    counts: Seq<usize>,
)
    requires
        reply_is(a, hub, first, counts),
        reply_is(b, hub, second, counts),
        first.map_values(|w: SpokePlan| plan_view(w)) == second.map_values(
            |w: SpokePlan| plan_view(w),
        ),
    ensures
        opt_view(a.hub) == opt_view(b.hub),
        a.written == b.written,
        a.spokes@.len() == b.spokes@.len(),
        forall|i: int|
            #![trigger a.spokes@[i]]
            0 <= i < a.spokes@.len() ==> a.spokes@[i].name@ == b.spokes@[i].name@
                && a.spokes@[i].matches == b.spokes@[i].matches && a.spokes@[i].written
                == b.spokes@[i].written,
{
    let x = first.map_values(|w: SpokePlan| plan_view(w));
    let y = second.map_values(|w: SpokePlan| plan_view(w));
    assert(x.len() == y.len());
    assert forall|i: int|
        #![trigger a.spokes@[i]]
        0 <= i < a.spokes@.len() implies a.spokes@[i].name@ == b.spokes@[i].name@
        && a.spokes@[i].matches == b.spokes@[i].matches && a.spokes@[i].written
        == b.spokes@[i].written by {
        assert(x[i] == y[i]);
        assert(b.spokes@[i].name@ == second[i].name@);
        assert(counts_of(a.spokes@)[i] == counts_of(b.spokes@)[i]);
    }
}

/// How many links of the project point into `p`.
pub open spec fn links_into(x: Project, p: Seq<char>) -> nat {
    x.links@.filter(points_at(p)).len()
}

/// From `a` to `b` a project lost no link into `h`, gained none into another
/// project, and, where it had none at all, gained only some into `h`.
pub open spec fn leans_on(a: Project, b: Project, h: Seq<char>) -> bool {
    &&& links_into(a, h) <= links_into(b, h)
    &&& forall|p: Seq<char>| p != h ==> #[trigger] links_into(b, p) <= links_into(a, p)
    &&& a.links@.len() == 0 && b.links@.len() > 0 ==> links_into(b, h) > 0
}

proof fn pointing_grows(a: Seq<Project>, b: Seq<Project>, h: Seq<char>, p: Seq<char>)
    requires
        a.len() == b.len(),
        forall|i: int| 0 <= i < a.len() ==> leans_on(#[trigger] a[i], b[i], h),
    ensures
        p == h ==> pointing(a, p) <= pointing(b, p),
        p != h ==> pointing(b, p) <= pointing(a, p),
    decreases a.len(),
{
    if a.len() > 0 {
        let x = a.drop_last();
        let y = b.drop_last();
        assert forall|i: int| 0 <= i < x.len() implies leans_on(#[trigger] x[i], y[i], h) by {
            assert(leans_on(a[i], b[i], h));
        }
        pointing_grows(x, y, h, p);
        assert(leans_on(a[a.len() - 1], b[b.len() - 1], h));
        assert(links_into(b.last(), p) == b.last().links@.filter(points_at(p)).len());
    }
}

proof fn some_link_points(projects: Seq<Project>, h: Seq<char>, i: int)
    requires
        0 <= i < projects.len(),
        links_into(projects[i], h) > 0,
    ensures
        pointing(projects, h) > 0,
    decreases projects.len(),
{
    if i < projects.len() - 1 {
        some_link_points(projects.drop_last(), h, i);
    }
}

proof fn without_links_none_points(projects: Seq<Project>, p: Seq<char>)
    requires
        !any_link(projects),
    ensures
        pointing(projects, p) == 0,
    decreases projects.len(),
{
    if projects.len() > 0 {
        assert(projects[projects.len() - 1].links@.len() == 0);
        crate::seqs::filtered(projects.last().links@, points_at(p));
        assert forall|i: int| 0 <= i < projects.drop_last().len() implies (
        #[trigger] projects.drop_last()[i]).links@.len() == 0 by {
            assert(projects[i].links@.len() == 0);
        }
        without_links_none_points(projects.drop_last(), p);
    }
}

/// The hub stays the hub: where writing only added links into it, and no
/// project's config keys changed, it is the hub in force afterwards.
pub proof fn the_hub_stays(h: Seq<char>, a: Seq<Project>, b: Seq<Project>)
    requires
        is_hub(Some(h), a),
        same_projects(a, b),
        forall|i: int| 0 <= i < a.len() ==> leans_on(#[trigger] a[i], b[i], h),
    ensures
        is_hub(Some(h), b),
{
    let v = |p: Project| keyed(p);
    assert(a.map_values(v).len() == b.map_values(v).len());
    assert forall|i: int| 0 <= i < a.len() implies (#[trigger] a[i]).name@ == b[i].name@
        && a[i].keys@.len() == b[i].keys@.len() by {
        assert(a.map_values(v)[i] == b.map_values(v)[i]);
        assert(keys_view(a[i].keys@).len() == keys_view(b[i].keys@).len());
    }
    crate::graph_api::hub::the_hub_is_hosted(Some(h), a);
    let at = choose|i: int| 0 <= i < a.len() && (#[trigger] a[i]).name@ == h;
    assert(b[at].name@ == h);
    pointing_grows(a, b, h, h);
    assert forall|p: Seq<char>| p != h implies #[trigger] pointing(b, p) <= pointing(a, p) by {
        pointing_grows(a, b, h, p);
    }
    if !is_linked_hub(None, a) {
        assert forall|i: int|
            #![trigger b[i]]
            0 <= i < b.len() implies pointing(b, b[i].name@) < pointing(b, h) || (pointing(
            b,
            b[i].name@,
        ) == pointing(b, h) && !crate::text::before(h, b[i].name@)) by {
            assert(a[i].name@ == b[i].name@);
        }
        assert(pointing(b, b[at].name@) > 0);
    } else {
        assert(!any_link(a));
        if any_link(b) {
            let i = choose|i: int| 0 <= i < b.len() && (#[trigger] b[i]).links@.len() > 0;
            assert(a[i].links@.len() == 0);
            some_link_points(b, h, i);
            assert(pointing(b, b[at].name@) > 0);
            assert forall|k: int|
                #![trigger b[k]]
                0 <= k < b.len() implies pointing(b, b[k].name@) < pointing(b, h) || (pointing(
                b,
                b[k].name@,
            ) == pointing(b, h) && !crate::text::before(h, b[k].name@)) by {
                if b[k].name@ == h {
                    crate::text::before_irreflexive(h);
                } else {
                    without_links_none_points(a, b[k].name@);
                }
            }
        } else {
            assert forall|k: int| #![trigger b[k]] 0 <= k < b.len() implies pointing(
                b,
                b[k].name@,
            ) == 0 by {
                without_links_none_points(b, b[k].name@);
            }
            filter_alike(a, b, has_keys(), has_keys(), |p: Project| p.keys@.len());
            let x = choose|x: int|
                0 <= x < a.len() && Some(h) == Some((#[trigger] a[x]).name@) && a[x].keys@.len() > 0
                    && forall|y: int| #![trigger a[y]] 0 <= y < a.len() ==> richer(a, x, y);
            assert(b[x].name@ == h);
            assert forall|y: int| #![trigger b[y]] 0 <= y < b.len() implies richer(b, x, y) by {
                assert(richer(a, x, y));
                assert(a[y].name@ == b[y].name@);
            }
            assert(is_richest(Some(h), b));
        }
    }
}

/// The facts record the match of a key: the placeholder of the hub's key, and an
/// inferred reference to it from the spoke's, as sure as the match and stamped.
pub open spec fn writes_down(
    f: FactSet,
    s: SpelledKey,
    hub: Seq<char>,
    hub_keys: Seq<SpelledKey>,
    stamp: Seq<char>,
) -> bool {
    matched(s, hub_keys) is Some && exists|i: int|
        {
            let h = (matched(s, hub_keys)->0).0;
            let t = (matched(s, hub_keys)->0).1;
            let q = qualified_of(hub, cfgkey_of(h.own.file@, h.own.key@));
            &&& 0 <= i < f.edges@.len()
            &&& i < f.nodes@.len()
            &&& f.nodes@[i].qualified@ == q
            &&& f.nodes@[i].key@ == extref_of(q)
            &&& (#[trigger] f.edges@[i]).src@ == cfgkey_of(s.own.file@, s.own.key@)
            &&& f.edges@[i].dst@ == extref_of(q)
            &&& f.edges@[i].kind@ == "references"@
            &&& f.edges@[i].provenance == Provenance::Inferred
            &&& f.edges@[i].confidence is Some
            &&& (f.edges@[i].confidence->0.bits, f.edges@[i].confidence->0.shown@) == score_of(t)
            &&& f.edges@[i].src_ref is Some && f.edges@[i].src_ref->0@ == stamp
        }
}

/// Every key of a spoke that is matched is written down, once, and nothing else
/// is: as many facts as there are such keys, and none where there is none, which
/// clears what was written before.
pub proof fn every_match_is_written(
    w: SpokePlan,
    p: Project,
    hub: Seq<char>,
    hub_keys: Seq<SpelledKey>,
    stamp: Seq<char>,
)
    requires
        plan_is(w, p, hub, hub_keys, stamp),
    ensures
        w.name@ == p.name@,
        forall|k: int|
            #![trigger p.keys@[k]]
            0 <= k < p.keys@.len() && matched(p.keys@[k], hub_keys) is Some ==> writes_down(
                w.facts,
                p.keys@[k],
                hub,
                hub_keys,
                stamp,
            ),
        w.matches == p.keys@.filter(|s: SpelledKey| matched(s, hub_keys) is Some).len(),
        w.facts.nodes@.len() == w.matches,
        w.facts.edges@.len() == w.matches,
{
    let met = p.keys@.filter(has_match(hub_keys));
    let ms = choose|ms: Seq<KeyMatch>| #[trigger]
        facts_record(w.facts, hub, ms, stamp) && ms.len() == met.len() && forall|i: int|
            0 <= i < ms.len() ==> records(#[trigger] ms[i], met[i], hub_keys);
    crate::seqs::filtered(p.keys@, has_match(hub_keys));
    filter_alike(
        p.keys@,
        p.keys@,
        has_match(hub_keys),
        |s: SpelledKey| matched(s, hub_keys) is Some,
        |s: SpelledKey| s,
    );
    assert forall|k: int|
        #![trigger p.keys@[k]]
        0 <= k < p.keys@.len() && matched(p.keys@[k], hub_keys) is Some implies writes_down(
        w.facts,
        p.keys@[k],
        hub,
        hub_keys,
        stamp,
    ) by {
        let s = p.keys@[k];
        assert(has_match(hub_keys)(s));
        assert(met.contains(s));
        let i = choose|i: int| 0 <= i < met.len() && met[i] == s;
        assert(records(ms[i], met[i], hub_keys));
        assert(w.facts.nodes@[i].key@ == w.facts.edges@[i].dst@);
        assert(w.facts.edges@[i].confidence == Some(ms[i].confidence));
    }
}

/// Counts are summed one by one.
pub proof fn sums_add_up(a: Seq<usize>, b: Seq<usize>, n: usize)
    ensures
        sum_of(a + b) == sum_of(a) + sum_of(b),
        sum_of(seq![n]) == n,
        sum_of(Seq::empty()) == 0,
    decreases b.len(),
{
    reveal_with_fuel(sum_of, 2);
    assert(seq![n].drop_last().len() == 0);
    if b.len() == 0 {
        assert(a + b =~= a);
    } else {
        assert((a + b).drop_last() =~= a + b.drop_last());
        sums_add_up(a, b.drop_last(), n);
    }
}

} // verus!
