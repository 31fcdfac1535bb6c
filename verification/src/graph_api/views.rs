//! What the cross-repo views answer: the projects around the hub, one project's
//! links and the override matrix.
use vstd::prelude::*;

use crate::graph::{
    cfgkey_node, cfgkey_of, qualified_of, qualify, ConfigKey, Node, Provenance, Score,
};
use crate::graph_api::hub::Link;
use crate::graph_api::links::{pairs, shown};
use crate::graph_api::{
    dangles, fault_status, link_target, workspace_failure, ApiError, WorkspaceError,
};
use crate::names::NameMap;
use crate::overview::{build, matrix_is, MatchInput, OverrideMatrix, SpokeInput};
use crate::seqs::{filter_step, picked, picked_step};
use crate::text::{
    before_first, begins, chars_of, copy_opt, head, opt_view, same, starts, string_of,
};

verus! {

// ---------------------------------------------------------------------------
// Followed links
// ---------------------------------------------------------------------------

/// A link and what following it gave.
pub struct FollowedLink {
    pub link: Link,
    pub followed: Result<Option<Node>, WorkspaceError>,
}

/// A project with its config keys, its correspondences, followed, and the keys
/// that correspond to nothing.
pub struct SpokeView {
    pub name: String,
    pub keys: Vec<ConfigKey>,
    pub refs: Vec<FollowedLink>,
    pub orphans: Vec<(String, String)>,
}

/// What following gave fails the view: more than a dangling link.
pub open spec fn hard(f: Result<Option<Node>, WorkspaceError>) -> bool {
    f matches Err(e) && !dangles(e.fault)
}

/// What following each link gave.
pub open spec fn outcomes(refs: Seq<FollowedLink>) -> Seq<Result<Option<Node>, WorkspaceError>> {
    refs.map_values(|f: FollowedLink| f.followed)
}

/// Nothing fails the view.
pub open spec fn all_follow(fs: Seq<Result<Option<Node>, WorkspaceError>>) -> bool {
    forall|i: int| 0 <= i < fs.len() ==> !hard(#[trigger] fs[i])
}

/// `e` answers the first of `fs` that fails the view.
pub open spec fn fails_with(e: ApiError, fs: Seq<Result<Option<Node>, WorkspaceError>>) -> bool {
    exists|i: int|
        0 <= i < fs.len() && hard(#[trigger] fs[i]) && all_follow(fs.take(i)) && e.status_of()
            == fault_status(fs[i]->Err_0.fault) && e.text() == fs[i]->Err_0.text@
}

fn first_failure(refs: &Vec<FollowedLink>) -> (r: Option<ApiError>)
    ensures
        match r {
            Some(e) => fails_with(e, outcomes(refs@)),
            None => all_follow(outcomes(refs@)),
        },
{
    let ghost fs = outcomes(refs@);
    let mut i: usize = 0;
    while i < refs.len()
        invariant
            i <= refs@.len(),
            fs == outcomes(refs@),
            forall|j: int| 0 <= j < i ==> !hard(#[trigger] fs[j]),
        decreases refs@.len() - i,
    {
        assert(fs[i as int] == refs@[i as int].followed);
        if let Err(e) = &refs[i].followed {
            let gone = crate::graph_api::is_dangling(e.fault);
            if !gone {
                proof {
                    assert(hard(fs[i as int]));
                    assert forall|j: int| 0 <= j < fs.take(i as int).len() implies !hard(
                        #[trigger] fs.take(i as int)[j],
                    ) by {
                        assert(!hard(fs[j]));
                    }
                }
                return Some(workspace_failure(e));
            }
        }
        i = i + 1;
    }
    None
}

// ---------------------------------------------------------------------------
// Which projects are spokes
// ---------------------------------------------------------------------------

/// The project is a spoke: not the hub, and with a link or a stray key.
pub open spec fn is_spoke(hub: Option<Seq<char>>) -> spec_fn(SpokeView) -> bool {
    |s: SpokeView| hub != Some(s.name@) && (s.refs@.len() > 0 || s.orphans@.len() > 0)
}

fn counts_as_spoke(s: &SpokeView, hub: &Option<String>) -> (r: bool)
    ensures
        r == is_spoke(opt_view(*hub))(*s),
{
    let is_hub = match hub {
        Some(h) => same(h.as_str(), s.name.as_str()),
        None => false,
    };
    !is_hub && (s.refs.len() > 0 || s.orphans.len() > 0)
}

/// What following the links of all spokes gave, in order.
pub open spec fn all_outcomes(spokes: Seq<SpokeView>, hub: Option<Seq<char>>) -> Seq<
    Result<Option<Node>, WorkspaceError>,
>
    decreases spokes.len(),
{
    if spokes.len() == 0 {
        Seq::empty()
    } else {
        all_outcomes(spokes.drop_last(), hub) + (if is_spoke(hub)(spokes.last()) {
            outcomes(spokes.last().refs@)
        } else {
            Seq::empty()
        })
    }
}

proof fn outcomes_prefix(spokes: Seq<SpokeView>, hub: Option<Seq<char>>, i: int)
    requires
        0 <= i <= spokes.len(),
    ensures
        all_outcomes(spokes.take(i), hub).len() <= all_outcomes(spokes, hub).len(),
        all_outcomes(spokes, hub).take(all_outcomes(spokes.take(i), hub).len() as int)
            == all_outcomes(spokes.take(i), hub),
    decreases spokes.len() - i,
{
    let part = all_outcomes(spokes.take(i), hub);
    let all = all_outcomes(spokes, hub);
    if i == spokes.len() {
        assert(spokes.take(i) =~= spokes);
        assert(all.take(part.len() as int) =~= part);
    } else {
        outcomes_prefix(spokes, hub, i + 1);
        assert(spokes.take(i + 1).drop_last() =~= spokes.take(i));
        let more = all_outcomes(spokes.take(i + 1), hub);
        assert(more.take(part.len() as int) =~= part);
        assert(all.take(part.len() as int) =~= more.take(part.len() as int));
    }
}

fn first_failure_of(spokes: &Vec<SpokeView>, hub: &Option<String>) -> (r: Option<ApiError>)
    ensures
        match r {
            Some(e) => fails_with(e, all_outcomes(spokes@, opt_view(*hub))),
            None => all_follow(all_outcomes(spokes@, opt_view(*hub))),
        },
{
    let ghost h = opt_view(*hub);
    let ghost all = all_outcomes(spokes@, h);
    let mut i: usize = 0;
    assert(all_follow(all_outcomes(spokes@.take(0), h)));
    while i < spokes.len()
        invariant
            i <= spokes@.len(),
            h == opt_view(*hub),
            all == all_outcomes(spokes@, h),
            all_follow(all_outcomes(spokes@.take(i as int), h)),
        decreases spokes@.len() - i,
    {
        let s = &spokes[i];
        let ghost part = all_outcomes(spokes@.take(i as int), h);
        let ghost more = all_outcomes(spokes@.take(i + 1), h);
        proof {
            assert(spokes@.take(i + 1).drop_last() =~= spokes@.take(i as int));
            assert(spokes@.take(i + 1).last() == *s);
            outcomes_prefix(spokes@, h, i + 1);
        }
        if counts_as_spoke(s, hub) {
            let ghost own = outcomes(s.refs@);
            assert(more == part + own);
            match first_failure(&s.refs) {
                Some(e) => {
                    proof {
                        let k = choose|k: int|
                            0 <= k < own.len() && hard(#[trigger] own[k]) && all_follow(own.take(k))
                                && e.status_of() == fault_status(own[k]->Err_0.fault) && e.text()
                                == own[k]->Err_0.text@;
                        let n = part.len() + k;
                        assert(more[n] == own[k]);
                        assert(all.take(more.len() as int)[n] == all[n]);
                        assert(hard(all[n]));
                        assert forall|j: int| 0 <= j < all.take(n).len() implies !hard(
                            #[trigger] all.take(n)[j],
                        ) by {
                            assert(all.take(more.len() as int)[j] == all[j]);
                            if j < part.len() {
                                assert(more[j] == part[j]);
                                assert(!hard(part[j]));
                            } else {
                                assert(more[j] == own[j - part.len()]);
                                assert(!hard(own.take(k)[j - part.len()]));
                            }
                        }
                        assert(all_follow(all.take(n)));
                    }
                    return Some(e);
                },
                None => {
                    assert forall|j: int| 0 <= j < more.len() implies !hard(#[trigger] more[j]) by {
                        if j < part.len() {
                            assert(!hard(part[j]));
                        } else {
                            assert(!hard(own[j - part.len()]));
                        }
                    }
                },
            }
        } else {
            assert(more =~= part);
        }
        i = i + 1;
    }
    assert(spokes@.take(spokes@.len() as int) =~= spokes@);
    None
}

// ---------------------------------------------------------------------------
// Topology
// ---------------------------------------------------------------------------

/// A spoke in short.
#[derive(Debug)]
pub struct SpokeSummary {
    pub name: String,
    pub label: String,
    pub key_count: usize,
    /// How many keys and links lead nowhere.
    pub drift_count: u128,
}

/// A link between projects.
#[derive(Debug)]
pub struct TopologyLink {
    pub from: String,
    pub to: String,
    pub provenance: &'static str,
    pub confidence: Option<Score>,
}

/// The projects around the hub.
#[derive(Debug)]
pub struct Topology {
    pub hub: Option<String>,
    pub spokes: Vec<SpokeSummary>,
    pub links: Vec<TopologyLink>,
}

/// Following the link led nowhere.
pub open spec fn leads_nowhere() -> spec_fn(FollowedLink) -> bool {
    |f: FollowedLink| link_target(f.followed) matches Ok(None)
}

/// How many keys and links of a spoke lead nowhere.
pub open spec fn drift_of(s: SpokeView) -> nat {
    s.orphans@.len() + s.refs@.filter(leads_nowhere()).len()
}

/// A spoke in short: its name, which is its label too, how many keys it has, and
/// its drift.
pub open spec fn summary(hub: Option<Seq<char>>) -> spec_fn(SpokeView) -> Option<
    (Seq<char>, Seq<char>, nat, nat),
> {
    |s: SpokeView|
        if is_spoke(hub)(s) {
            Some((s.name@, s.name@, s.keys@.len(), drift_of(s)))
        } else {
            None
        }
}

/// A link of the project `name`, where it names a target.
pub open spec fn row(name: Seq<char>) -> spec_fn(FollowedLink) -> Option<
    (Seq<char>, Seq<char>, Seq<char>, Option<(u64, Seq<char>)>),
> {
    |f: FollowedLink|
        match opt_view(f.link.node.qualified) {
            Some(q) => Some(
                (
                    qualified_of(name, f.link.src@),
                    q,
                    f.link.provenance.token(),
                    shown(f.link.confidence),
                ),
            ),
            None => None,
        }
}

/// The links of all spokes, in order.
pub open spec fn rows(spokes: Seq<SpokeView>, hub: Option<Seq<char>>) -> Seq<
    (Seq<char>, Seq<char>, Seq<char>, Option<(u64, Seq<char>)>),
>
    decreases spokes.len(),
{
    if spokes.len() == 0 {
        Seq::empty()
    } else {
        rows(spokes.drop_last(), hub) + (if is_spoke(hub)(spokes.last()) {
            picked(spokes.last().refs@, row(spokes.last().name@))
        } else {
            Seq::empty()
        })
    }
}

/// Summaries by their texts and counts.
pub open spec fn summaries_view(s: Seq<SpokeSummary>) -> Seq<(Seq<char>, Seq<char>, nat, nat)> {
    s.map_values(|x: SpokeSummary| (x.name@, x.label@, x.key_count as nat, x.drift_count as nat))
}

/// Links by their texts.
pub open spec fn rows_view(s: Seq<TopologyLink>) -> Seq<
    (Seq<char>, Seq<char>, Seq<char>, Option<(u64, Seq<char>)>),
> {
    s.map_values(|x: TopologyLink| (x.from@, x.to@, x.provenance@, shown(x.confidence)))
}

/// `t` is the topology of the projects.
pub open spec fn topology_is(t: Topology, hub: Option<Seq<char>>, spokes: Seq<SpokeView>) -> bool {
    &&& opt_view(t.hub) == hub
    &&& summaries_view(t.spokes@) == picked(spokes, summary(hub))
    &&& rows_view(t.links@) == rows(spokes, hub)
}

fn copy_score(s: &Option<Score>) -> (r: Option<Score>)
    ensures
        r == *s,
{
    match s {
        Some(x) => Some(x.clone()),
        None => None,
    }
}

fn count_drift(s: &SpokeView) -> (r: u128)
    ensures
        r == drift_of(*s),
{
    let ghost p = leads_nowhere();
    let mut n: usize = 0;
    let mut i: usize = 0;
    proof {
        reveal(Seq::filter);
        assert(s.refs@.take(0).filter(p).len() == 0);
    }
    while i < s.refs.len()
        invariant
            i <= s.refs@.len(),
            n <= i,
            p == leads_nowhere(),
            n == s.refs@.take(i as int).filter(p).len(),
        decreases s.refs@.len() - i,
    {
        proof {
            filter_step(s.refs@, i as int, p);
        }
        let nowhere = match &s.refs[i].followed {
            Ok(Some(_)) => false,
            Ok(None) => true,
            Err(e) => crate::graph_api::is_dangling(e.fault),
        };
        if nowhere {
            n = n + 1;
        }
        i = i + 1;
    }
    assert(s.refs@.take(s.refs@.len() as int) =~= s.refs@);
    s.orphans.len() as u128 + n as u128
}

fn push_rows(s: &SpokeView, r: &mut Vec<TopologyLink>)
    ensures
        rows_view(final(r)@) == rows_view(old(r)@) + picked(s.refs@, row(s.name@)),
{
    let ghost f = row(s.name@);
    let ghost base = rows_view(r@);
    let mut i: usize = 0;
    assert(rows_view(r@) =~= base + picked(s.refs@.take(0), f));
    while i < s.refs.len()
        invariant
            i <= s.refs@.len(),
            f == row(s.name@),
            rows_view(r@) == base + picked(s.refs@.take(i as int), f),
        decreases s.refs@.len() - i,
    {
        proof {
            picked_step(s.refs@, f, i as int);
        }
        let l = &s.refs[i].link;
        if let Some(q) = &l.node.qualified {
            let ghost was = r@;
            let ghost before = picked(s.refs@.take(i as int), f);
            let one = TopologyLink {
                from: qualify(s.name.as_str(), l.src.as_str()),
                to: q.clone(),
                provenance: l.provenance.as_str(),
                confidence: copy_score(&l.confidence),
            };
            r.push(one);
            proof {
                let x = (one.from@, one.to@, one.provenance@, shown(one.confidence));
                assert(f(s.refs@[i as int]) == Some(x));
                assert(rows_view(r@) =~= rows_view(was).push(x));
                assert(base + before.push(x) =~= (base + before).push(x));
            }
        }
        i = i + 1;
    }
    assert(s.refs@.take(s.refs@.len() as int) =~= s.refs@);
}

/// The projects around the hub, or the first failure. A dangling link is drift.
pub fn topology(hub: &Option<String>, spokes: &Vec<SpokeView>) -> (r: Result<Topology, ApiError>)
    ensures
        match r {
            Ok(t) => all_follow(all_outcomes(spokes@, opt_view(*hub))) && topology_is(
                t,
                opt_view(*hub),
                spokes@,
            ),
            Err(e) => fails_with(e, all_outcomes(spokes@, opt_view(*hub))),
        },
{
    if let Some(e) = first_failure_of(spokes, hub) {
        return Err(e);
    }
    let ghost h = opt_view(*hub);
    let ghost f = summary(h);
    let mut summaries: Vec<SpokeSummary> = Vec::new();
    let mut links: Vec<TopologyLink> = Vec::new();
    let mut i: usize = 0;
    proof {
        assert(summaries_view(summaries@) =~= picked(spokes@.take(0), f));
        assert(rows_view(links@) =~= rows(spokes@.take(0), h));
    }
    while i < spokes.len()
        invariant
            i <= spokes@.len(),
            h == opt_view(*hub),
            f == summary(h),
            summaries_view(summaries@) == picked(spokes@.take(i as int), f),
            rows_view(links@) == rows(spokes@.take(i as int), h),
        decreases spokes@.len() - i,
    {
        proof {
            picked_step(spokes@, f, i as int);
            assert(spokes@.take(i + 1).drop_last() =~= spokes@.take(i as int));
            assert(spokes@.take(i + 1).last() == spokes@[i as int]);
        }
        let s = &spokes[i];
        if counts_as_spoke(s, hub) {
            let ghost was = summaries@;
            let one = SpokeSummary {
                name: s.name.clone(),
                label: s.name.clone(),
                key_count: s.keys.len(),
                drift_count: count_drift(s),
            };
            summaries.push(one);
            proof {
                let x = (s.name@, s.name@, s.keys@.len(), drift_of(*s));
                assert(summaries_view(summaries@) =~= summaries_view(was).push(x));
            }
            push_rows(s, &mut links);
        } else {
            assert(rows(spokes@.take(i + 1), h) =~= rows(spokes@.take(i as int), h));
        }
        i = i + 1;
    }
    assert(spokes@.take(spokes@.len() as int) =~= spokes@);
    Ok(Topology { hub: copy_opt(hub), spokes: summaries, links })
}

// ---------------------------------------------------------------------------
// One project's links
// ---------------------------------------------------------------------------

/// The last config key whose node is `node`.
pub open spec fn key_at(keys: Seq<ConfigKey>, node: Seq<char>) -> Option<ConfigKey>
    decreases keys.len(),
{
    if keys.len() == 0 {
        None
    } else if cfgkey_of(keys.last().file@, keys.last().key@) == node {
        Some(keys.last())
    } else {
        key_at(keys.drop_last(), node)
    }
}

fn find_key(keys: &Vec<ConfigKey>, node: &str) -> (r: Option<ConfigKey>)
    ensures
        r == key_at(keys@, node@),
{
    let mut i: usize = keys.len();
    assert(keys@.take(i as int) =~= keys@);
    while i > 0
        invariant
            i <= keys@.len(),
            key_at(keys@, node@) == key_at(keys@.take(i as int), node@),
        decreases i,
    {
        let k = &keys[i - 1];
        assert(keys@.take(i as int).last() == *k);
        assert(keys@.take(i as int).drop_last() =~= keys@.take(i - 1));
        let own = cfgkey_node(k.file.as_str(), k.key.as_str());
        if same(own.as_str(), node) {
            return Some(k.clone());
        }
        i = i - 1;
    }
    None
}

/// The key and value that a link starts at: those of the config key there, or
/// the node's key and nothing.
pub open spec fn start_of(keys: Seq<ConfigKey>, src: Seq<char>) -> (Seq<char>, Seq<char>) {
    match key_at(keys, src) {
        Some(k) => (k.key@, k.value@),
        None => (src, Seq::empty()),
    }
}

fn start(keys: &Vec<ConfigKey>, src: &str) -> (r: (String, String))
    ensures
        (r.0@, r.1@) == start_of(keys@, src@),
{
    match find_key(keys, src) {
        Some(k) => (k.key, k.value),
        None => (src.to_owned(), String::new()),
    }
}

/// A link of a project as it is drawn.
#[derive(Debug)]
pub struct ProjectLink {
    pub from: String,
    pub from_name: String,
    pub to: String,
    pub to_qualified: String,
    /// The name of the target; none where it is gone.
    pub to_name: Option<String>,
    pub provenance: &'static str,
    pub confidence: Option<Score>,
    pub drift: bool,
}

/// The name of the node that following gave.
pub open spec fn name_reached(f: Result<Option<Node>, WorkspaceError>) -> Option<Seq<char>> {
    match link_target(f) {
        Ok(Some(n)) => Some(n.name@),
        _ => None,
    }
}

/// `r` is the link `f` as it is drawn.
pub open spec fn drawn(r: ProjectLink, f: FollowedLink, keys: Seq<ConfigKey>) -> bool {
    &&& r.from@ == f.link.src@
    &&& r.from_name@ == start_of(keys, f.link.src@).0
    &&& r.to@ == f.link.node.key@
    &&& r.to_qualified@ == (match opt_view(f.link.node.qualified) {
        Some(q) => q,
        None => Seq::empty(),
    })
    &&& opt_view(r.to_name) == name_reached(f.followed)
    &&& r.provenance@ == f.link.provenance.token()
    &&& r.confidence == f.link.confidence
    &&& r.drift == (name_reached(f.followed) is None)
}

/// A project's links as they are drawn, or the first failure.
pub fn project_links(keys: &Vec<ConfigKey>, refs: &Vec<FollowedLink>) -> (r: Result<
    Vec<ProjectLink>,
    ApiError,
>)
    ensures
        match r {
            Ok(v) => all_follow(outcomes(refs@)) && v@.len() == refs@.len() && forall|i: int|
                #![trigger v@[i]]
                0 <= i < v@.len() ==> drawn(v@[i], refs@[i], keys@),
            Err(e) => fails_with(e, outcomes(refs@)),
        },
{
    if let Some(e) = first_failure(refs) {
        return Err(e);
    }
    let mut v: Vec<ProjectLink> = Vec::new();
    let mut i: usize = 0;
    while i < refs.len()
        invariant
            i <= refs@.len(),
            v@.len() == i,
            forall|k: int| #![trigger v@[k]] 0 <= k < i ==> drawn(v@[k], refs@[k], keys@),
        decreases refs@.len() - i,
    {
        let ghost was = v@;
        let f = &refs[i];
        let to_name = match &f.followed {
            Ok(Some(n)) => Some(n.name.clone()),
            _ => None,
        };
        let drift = match &to_name {
            Some(_) => false,
            None => true,
        };
        let to_qualified = match &f.link.node.qualified {
            Some(q) => q.clone(),
            None => String::new(),
        };
        let one = ProjectLink {
            from: f.link.src.clone(),
            from_name: start(keys, f.link.src.as_str()).0,
            to: f.link.node.key.clone(),
            to_qualified,
            to_name,
            provenance: f.link.provenance.as_str(),
            confidence: copy_score(&f.link.confidence),
            drift,
        };
        v.push(one);
        assert(drawn(one, *f, keys@));
        assert forall|k: int| #![trigger v@[k]] 0 <= k < i + 1 implies drawn(
            v@[k],
            refs@[k],
            keys@,
        ) by {
            if k < i {
                assert(v@[k] == was[k]);
            }
        }
        i = i + 1;
    }
    Ok(v)
}

// ---------------------------------------------------------------------------
// The override matrix
// ---------------------------------------------------------------------------

/// The file of a config key's node; nothing for another node.
pub open spec fn file_of(key: Seq<char>) -> Seq<char> {
    if begins(key, "cfgkey:"@) {
        let rest = key.skip(7);
        match before_first(rest, "#"@) {
            Some(file) => file,
            None => rest,
        }
    } else {
        Seq::empty()
    }
}

/// The file of a config key's node; empty for another node.
pub fn cfgkey_file(key: &str) -> (r: String)
    ensures
        r@ == file_of(key@),
{
    if !starts(key, "cfgkey:") {
        return String::new();
    }
    proof {
        reveal_strlit("cfgkey:");
    }
    let v = chars_of(key);
    assert(key@.len() >= 7);
    let rest = string_of(&v, 7, v.len());
    assert(rest@ =~= key@.skip(7));
    match head(rest.as_str(), "#") {
        Some(file) => file,
        None => rest,
    }
}

/// The value of each key, the last one where a key occurs several times.
pub open spec fn values_of(keys: Seq<ConfigKey>) -> Map<Seq<char>, String>
    decreases keys.len(),
{
    if keys.len() == 0 {
        Map::empty()
    } else {
        values_of(keys.drop_last()).insert(keys.last().key@, keys.last().value)
    }
}

/// The value of each key.
pub fn config_values(keys: &Vec<ConfigKey>) -> (m: NameMap<String>)
    ensures
        m@ == values_of(keys@),
{
    let mut m: NameMap<String> = NameMap::new();
    let mut i: usize = 0;
    assert(m@ =~= values_of(keys@.take(0)));
    while i < keys.len()
        invariant
            i <= keys@.len(),
            m@ == values_of(keys@.take(i as int)),
        decreases keys@.len() - i,
    {
        assert(keys@.take(i + 1).drop_last() =~= keys@.take(i as int));
        m.insert(keys[i].key.as_str(), keys[i].value.clone());
        i = i + 1;
    }
    assert(keys@.take(keys@.len() as int) =~= keys@);
    m
}

/// A match by its texts.
#[verifier::ext_equal]
pub struct MatchView {
    pub hub_key: Seq<char>,
    pub file: Seq<char>,
    pub spoke_key: Seq<char>,
    pub spoke_value: Seq<char>,
    pub confidence: (u64, Seq<char>),
    pub provenance: Provenance,
}

/// A match by its texts.
pub open spec fn match_view(m: MatchInput) -> MatchView {
    MatchView {
        hub_key: m.hub_key@,
        file: m.file@,
        spoke_key: m.spoke_key@,
        spoke_value: m.spoke_value@,
        confidence: (m.confidence.bits, m.confidence.shown@),
        provenance: m.provenance,
    }
}

/// Matches by their texts.
pub open spec fn match_views(s: Seq<MatchInput>) -> Seq<MatchView> {
    s.map_values(|m: MatchInput| match_view(m))
}

/// The override that a link is, where its target is there. A link without a
/// confidence counts as zero.
pub open spec fn overriding(keys: Seq<ConfigKey>) -> spec_fn(FollowedLink) -> Option<MatchView> {
    |f: FollowedLink|
        match link_target(f.followed) {
            Ok(Some(n)) => Some(
                MatchView {
                    hub_key: n.name@,
                    file: file_of(n.key@),
                    spoke_key: start_of(keys, f.link.src@).0,
                    spoke_value: start_of(keys, f.link.src@).1,
                    confidence: (match shown(f.link.confidence) {
                        Some(c) => c,
                        None => (0, "0.00"@),
                    }),
                    provenance: f.link.provenance,
                },
            ),
            _ => None,
        }
}

/// The key and value at the start of a link whose target is gone.
pub open spec fn drifting(keys: Seq<ConfigKey>) -> spec_fn(FollowedLink) -> Option<
    (Seq<char>, Seq<char>),
> {
    |f: FollowedLink|
        match link_target(f.followed) {
            Ok(None) => Some(start_of(keys, f.link.src@)),
            _ => None,
        }
}

/// `i` is what the spoke `s` feeds into the matrix.
pub open spec fn input_is(i: SpokeInput, s: SpokeView) -> bool {
    &&& i.name@ == s.name@
    &&& match_views(i.matches@) == picked(s.refs@, overriding(s.keys@))
    &&& pairs(i.orphans@) == picked(s.refs@, drifting(s.keys@)) + pairs(s.orphans@)
    &&& i.pin is None
}

/// `inputs` is what the spokes feed into the matrix.
pub open spec fn inputs_are(
    inputs: Seq<SpokeInput>,
    spokes: Seq<SpokeView>,
    hub: Option<Seq<char>>,
) -> bool {
    let fed = spokes.filter(is_spoke(hub));
    &&& inputs.len() == fed.len()
    &&& forall|i: int| #![trigger inputs[i]] 0 <= i < fed.len() ==> input_is(inputs[i], fed[i])
}

fn push_all(r: &mut Vec<(String, String)>, more: &Vec<(String, String)>)
    ensures
        pairs(final(r)@) == pairs(old(r)@) + pairs(more@),
{
    let ghost base = pairs(r@);
    let ghost all = pairs(more@);
    let mut i: usize = 0;
    assert(pairs(r@) =~= base + all.take(0));
    while i < more.len()
        invariant
            i <= more@.len(),
            all == pairs(more@),
            pairs(r@) == base + all.take(i as int),
        decreases more@.len() - i,
    {
        let ghost was = r@;
        r.push((more[i].0.clone(), more[i].1.clone()));
        proof {
            assert(pairs(r@) =~= pairs(was).push(all[i as int]));
            assert(base + all.take(i + 1) =~= (base + all.take(i as int)).push(all[i as int]));
        }
        i = i + 1;
    }
    assert(all.take(all.len() as int) =~= all);
}

fn spoke_input(s: &SpokeView) -> (r: SpokeInput)
    ensures
        input_is(r, *s),
{
    let ghost fm = overriding(s.keys@);
    let ghost fd = drifting(s.keys@);
    let mut matches: Vec<MatchInput> = Vec::new();
    let mut orphans: Vec<(String, String)> = Vec::new();
    let mut i: usize = 0;
    proof {
        assert(match_views(matches@) =~= picked(s.refs@.take(0), fm));
        assert(pairs(orphans@) =~= picked(s.refs@.take(0), fd));
    }
    while i < s.refs.len()
        invariant
            i <= s.refs@.len(),
            fm == overriding(s.keys@),
            fd == drifting(s.keys@),
            match_views(matches@) == picked(s.refs@.take(i as int), fm),
            pairs(orphans@) == picked(s.refs@.take(i as int), fd),
        decreases s.refs@.len() - i,
    {
        proof {
            picked_step(s.refs@, fm, i as int);
            picked_step(s.refs@, fd, i as int);
        }
        let f = &s.refs[i];
        let (spoke_key, spoke_value) = start(&s.keys, f.link.src.as_str());
        let nowhere = match &f.followed {
            Ok(Some(_)) => false,
            Ok(None) => true,
            Err(e) => crate::graph_api::is_dangling(e.fault),
        };
        if nowhere {
            let ghost was = orphans@;
            orphans.push((spoke_key, spoke_value));
            assert(pairs(orphans@) =~= pairs(was).push(start_of(s.keys@, f.link.src@)));
        } else if let Ok(Some(n)) = &f.followed {
            let ghost was = matches@;
            let confidence = match &f.link.confidence {
                Some(c) => c.clone(),
                None => Score { bits: 0, shown: "0.00".to_owned() },
            };
            let m = MatchInput {
                hub_key: n.name.clone(),
                file: cfgkey_file(n.key.as_str()),
                spoke_key,
                spoke_value,
                confidence,
                provenance: f.link.provenance,
            };
            matches.push(m);
            proof {
                assert(fm(*f) is Some);
                assert(match_view(m) =~= fm(*f)->0);
                assert(match_views(matches@) =~= match_views(was).push(match_view(m)));
            }
        }
        i = i + 1;
    }
    assert(s.refs@.take(s.refs@.len() as int) =~= s.refs@);
    push_all(&mut orphans, &s.orphans);
    SpokeInput { name: s.name.clone(), matches, orphans, pin: None }
}

/// What the spokes feed into the matrix.
pub fn spoke_inputs(hub: &Option<String>, spokes: &Vec<SpokeView>) -> (r: Vec<SpokeInput>)
    ensures
        inputs_are(r@, spokes@, opt_view(*hub)),
{
    let ghost p = is_spoke(opt_view(*hub));
    let mut r: Vec<SpokeInput> = Vec::new();
    let mut i: usize = 0;
    proof {
        reveal(Seq::filter);
        assert(spokes@.take(0).filter(p).len() == 0);
    }
    while i < spokes.len()
        invariant
            i <= spokes@.len(),
            p == is_spoke(opt_view(*hub)),
            r@.len() == spokes@.take(i as int).filter(p).len(),
            forall|k: int|
                #![trigger r@[k]]
                0 <= k < r@.len() ==> input_is(r@[k], spokes@.take(i as int).filter(p)[k]),
        decreases spokes@.len() - i,
    {
        proof {
            filter_step(spokes@, i as int, p);
        }
        if counts_as_spoke(&spokes[i], hub) {
            let ghost was = r@;
            let ghost before = spokes@.take(i as int).filter(p);
            let one = spoke_input(&spokes[i]);
            r.push(one);
            proof {
                let now = spokes@.take(i + 1).filter(p);
                assert(now == before.push(spokes@[i as int]));
                assert forall|k: int| #![trigger r@[k]] 0 <= k < r@.len() implies input_is(
                    r@[k],
                    now[k],
                ) by {
                    if k < was.len() {
                        assert(r@[k] == was[k]);
                        assert(now[k] == before[k]);
                    }
                }
            }
        }
        i = i + 1;
    }
    assert(spokes@.take(spokes@.len() as int) =~= spokes@);
    r
}

/// The override matrix of the projects, or the first failure. Without a hub
/// there is none.
pub fn matrix(hub: &Option<String>, hub_keys: &Vec<ConfigKey>, spokes: &Vec<SpokeView>) -> (r:
    Result<Option<OverrideMatrix>, ApiError>)
    ensures
        match hub {
            None => r == Ok::<Option<OverrideMatrix>, ApiError>(None),
            Some(h) => match r {
                Ok(Some(m)) => all_follow(all_outcomes(spokes@, Some(h@))) && exists|
                    inputs: Seq<SpokeInput>,
                | #[trigger]
                    inputs_are(inputs, spokes@, Some(h@)) && matrix_is(
                        m,
                        h@,
                        values_of(hub_keys@),
                        inputs,
                        false,
                    ),
                Ok(None) => false,
                Err(e) => fails_with(e, all_outcomes(spokes@, Some(h@))),
            },
        },
{
    let h = match hub {
        Some(h) => h.as_str(),
        None => {
            return Ok(None);
        },
    };
    if let Some(e) = first_failure_of(spokes, hub) {
        return Err(e);
    }
    let inputs = spoke_inputs(hub, spokes);
    let values = config_values(hub_keys);
    let ghost fed = inputs@;
    let m = build(h, &values, inputs, false);
    assert(inputs_are(fed, spokes@, Some(h@)));
    Ok(Some(m))
}

// ---------------------------------------------------------------------------
// Laws
// ---------------------------------------------------------------------------

/// A dangling link fails no view: where following gave only targets, nothing, or
/// a target that is not hosted, there is no failure to answer with.
pub proof fn dangling_links_fail_nothing(fs: Seq<Result<Option<Node>, WorkspaceError>>, e: ApiError)
    requires
        forall|i: int|
            0 <= i < fs.len() ==> (#[trigger] fs[i] is Ok || dangles(fs[i]->Err_0.fault)),
    ensures
        all_follow(fs),
        !fails_with(e, fs),
{
    assert forall|i: int| 0 <= i < fs.len() implies !hard(#[trigger] fs[i]) by {
        assert(fs[i] is Ok || dangles(fs[i]->Err_0.fault));
    }
}

/// Every link of a spoke is in exactly one place of the matrix: an override
/// where its target is there, drift where it is gone.
pub proof fn a_link_overrides_or_drifts(f: FollowedLink, keys: Seq<ConfigKey>)
    requires
        !hard(f.followed),
    ensures
        overriding(keys)(f) is Some <==> drifting(keys)(f) is None,
        drifting(keys)(f) is Some <==> leads_nowhere()(f),
{
}

/// The two ends of a config key's node: the file comes back from the key.
pub proof fn the_file_comes_back(file: Seq<char>, key: Seq<char>)
    requires
        !crate::text::contains(file, "#"@),
    ensures
        file_of(cfgkey_of(file, key)) == file,
{
    reveal_strlit("cfgkey:");
    reveal_strlit("#");
    let whole = cfgkey_of(file, key);
    let rest = whole.skip(7);
    let hash = "#"@;
    assert(whole.subrange(0, 7) =~= "cfgkey:"@);
    assert(rest =~= file + hash + key);
    assert(rest.subrange(file.len() as int, file.len() as int + 1) =~= hash);
    assert(crate::text::occurs_at(rest, hash, file.len() as int));
    assert forall|j: int| 0 <= j < file.len() implies !crate::text::occurs_at(rest, hash, j) by {
        if crate::text::occurs_at(rest, hash, j) {
            assert(rest.subrange(j, j + 1)[0] == '#');
            assert(file.subrange(j, j + 1) =~= hash);
            assert(crate::text::occurs_at(file, hash, j));
        }
    }
    assert(crate::text::first_at(rest, hash, 0, file.len() as int));
    let i = choose|i: int| crate::text::first_at(rest, hash, 0, i);
    if i < file.len() {
        assert(!crate::text::occurs_at(rest, hash, i));
    } else if i > file.len() {
        assert(!crate::text::occurs_at(rest, hash, file.len() as int));
    }
    assert(rest.take(file.len() as int) =~= file);
}

} // verus!
