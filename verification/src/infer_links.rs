//! Matching a spoke's config keys against a hub's by name, and the facts that
//! record the matches.
use vstd::prelude::*;

use crate::graph::{
    cfgkey_node, cfgkey_of, external_ref_key, extref_of, qualified_of, qualify, ConfigKey, Edge,
    Provenance, Score,
};
use crate::seqs::{filter_alike, filter_step, filtered};
use crate::text::{last_piece, opt_view, same, split, split_of, views};

verus! {

/// A config key with the two spellings it is matched by: `norm`, in which every
/// separator is a segment boundary, and `canon`, in which separators within a
/// segment are gone.
pub struct SpelledKey {
    pub own: ConfigKey,
    pub norm: String,
    pub canon: String,
}

/// One inferred correspondence between a spoke key and a hub key.
#[derive(Debug)]
pub struct KeyMatch {
    /// The spoke's key.
    pub spoke_key: String,
    /// The file it was read from.
    pub spoke_file: String,
    /// The matched hub key.
    pub hub_key: String,
    /// The file that was read from.
    pub hub_file: String,
    /// How sure the match is.
    pub confidence: Score,
}

// ---------------------------------------------------------------------------
// How a key is matched
// ---------------------------------------------------------------------------

/// How a match came about.
#[derive(Debug, Clone, Copy, PartialEq, Eq, Structural)]
pub enum Tier {
    /// The same name, segment by segment.
    Exact { agrees: bool },
    /// The same name but for a naming convention.
    Canonical { agrees: bool },
    /// The same last segment only.
    Leaf,
}

/// How sure a match of this tier is: the bits of the number, and the number.
pub open spec fn score_of(t: Tier) -> (u64, Seq<char>) {
    match t {
        Tier::Exact { agrees: true } => (0x3FEF5C28F5C28F5C, "0.98"@),
        Tier::Exact { agrees: false } => (0x3FECCCCCCCCCCCCD, "0.90"@),
        Tier::Canonical { agrees: true } => (0x3FEE666666666666, "0.95"@),
        Tier::Canonical { agrees: false } => (0x3FEB333333333333, "0.85"@),
        Tier::Leaf => (0x3FE199999999999A, "0.55"@),
    }
}

/// How sure a match of this tier is.
pub fn score(t: Tier) -> (s: Score)
    ensures
        (s.bits, s.shown@) == score_of(t),
{
    match t {
        Tier::Exact { agrees } => if agrees {
            Score { bits: 0x3FEF5C28F5C28F5C, shown: "0.98".to_owned() }
        } else {
            Score { bits: 0x3FECCCCCCCCCCCCD, shown: "0.90".to_owned() }
        },
        Tier::Canonical { agrees } => if agrees {
            Score { bits: 0x3FEE666666666666, shown: "0.95".to_owned() }
        } else {
            Score { bits: 0x3FEB333333333333, shown: "0.85".to_owned() }
        },
        Tier::Leaf => Score { bits: 0x3FE199999999999A, shown: "0.55".to_owned() },
    }
}

/// The last segment of a normalised key.
pub open spec fn leaf_of(norm: Seq<char>) -> Seq<char> {
    split_of(norm, '.').last()
}

/// The last segment of a normalised key.
pub fn last_token(norm: &str) -> (s: String)
    ensures
        s@ == leaf_of(norm@),
{
    let parts = split(norm, '.');
    assert(views(parts@).last() == parts@.last()@);
    parts[parts.len() - 1].clone()
}

/// A hub key is spelled like this when normalised.
pub open spec fn spelled(norm: Seq<char>) -> spec_fn(SpelledKey) -> bool {
    |h: SpelledKey| h.norm@ == norm
}

/// A hub key is spelled like this in canonical form.
pub open spec fn canonical(canon: Seq<char>) -> spec_fn(SpelledKey) -> bool {
    |h: SpelledKey| h.canon@ == canon
}

/// A hub key ends in this segment.
pub open spec fn leafed(leaf: Seq<char>) -> spec_fn(SpelledKey) -> bool {
    |h: SpelledKey| leaf_of(h.norm@) == leaf
}

/// All of `cands` are one key, be it read from several files.
pub open spec fn one_key(cands: Seq<SpelledKey>) -> bool {
    cands.len() > 0 && forall|i: int|
        0 <= i < cands.len() ==> (#[trigger] cands[i]).own.key@ == cands[0].own.key@
}

/// The hub key that a spoke key is matched to and how, strongest first: the
/// first of exactly its name; else the first of its canonical name, if all of
/// that name are one key; else the only one with its last segment. `None` where
/// there is none: the key is an orphan.
pub open spec fn matched(s: SpelledKey, hub: Seq<SpelledKey>) -> Option<(SpelledKey, Tier)> {
    let exact = hub.filter(spelled(s.norm@));
    let canon = hub.filter(canonical(s.canon@));
    let leaf = hub.filter(leafed(leaf_of(s.norm@)));
    if exact.len() > 0 {
        Some((exact[0], Tier::Exact { agrees: exact[0].own.value@ == s.own.value@ }))
    } else if one_key(canon) {
        Some((canon[0], Tier::Canonical { agrees: canon[0].own.value@ == s.own.value@ }))
    } else if leaf.len() == 1 {
        Some((leaf[0], Tier::Leaf))
    } else {
        None
    }
}

/// A spoke key that is matched.
pub open spec fn has_match(hub: Seq<SpelledKey>) -> spec_fn(SpelledKey) -> bool {
    |s: SpelledKey| matched(s, hub) is Some
}

/// A spoke key without a hub counterpart.
pub open spec fn is_orphan(hub: Seq<SpelledKey>) -> spec_fn(SpelledKey) -> bool {
    |s: SpelledKey| matched(s, hub) is None
}

/// `m` records the match of `s`, every name verbatim.
pub open spec fn records(m: KeyMatch, s: SpelledKey, hub: Seq<SpelledKey>) -> bool {
    matched(s, hub) matches Some((h, t)) && {
        &&& m.spoke_key@ == s.own.key@
        &&& m.spoke_file@ == s.own.file@
        &&& m.hub_key@ == h.own.key@
        &&& m.hub_file@ == h.own.file@
        &&& (m.confidence.bits, m.confidence.shown@) == score_of(t)
    }
}

/// The keys as they were read.
pub open spec fn own_keys(s: Seq<SpelledKey>) -> Seq<ConfigKey> {
    s.map_values(|k: SpelledKey| k.own)
}

/// What a scan of some candidates found: the first, and whether all are one key,
/// and how many there are.
struct Found {
    first: Option<usize>,
    one_key: bool,
    several: bool,
}

spec fn found_is(f: Found, hub: Seq<SpelledKey>, cands: Seq<SpelledKey>) -> bool {
    &&& f.first is None <==> cands.len() == 0
    &&& f.first matches Some(i) ==> i < hub.len() && hub[i as int] == cands[0]
    &&& f.one_key == (cands.len() == 0 || one_key(cands))
    &&& f.several == (cands.len() > 1)
}

fn take_candidate(f: Found, hub: &Vec<SpelledKey>, i: usize, Ghost(cands): Ghost<Seq<SpelledKey>>) -> (r:
    Found)
    requires
        i < hub@.len(),
        found_is(f, hub@, cands),
    ensures
        found_is(r, hub@, cands.push(hub@[i as int])),
{
    let ghost now = cands.push(hub@[i as int]);
    match f.first {
        None => {
            assert(now[0] == hub@[i as int]);
            Found { first: Some(i), one_key: true, several: false }
        },
        Some(a) => {
            let alike = same(hub[i].own.key.as_str(), hub[a].own.key.as_str());
            proof {
                assert(now[0] == cands[0]);
                assert(now[cands.len() as int] == hub@[i as int]);
                assert forall|k: int| 0 <= k < cands.len() implies #[trigger] now[k] == cands[k] by {}
                if f.one_key && alike {
                    assert(one_key(now));
                } else if one_key(now) {
                    assert(now[cands.len() as int].own.key@ == now[0].own.key@);
                    assert forall|k: int| 0 <= k < cands.len() implies (
                    #[trigger] cands[k]).own.key@ == cands[0].own.key@ by {
                        assert(now[k].own.key@ == now[0].own.key@);
                    }
                }
            }
            Found { first: Some(a), one_key: f.one_key && alike, several: true }
        },
    }
}

/// The hub key that `s` is matched to, by its place in the hub, and how.
fn find_match(s: &SpelledKey, hub: &Vec<SpelledKey>) -> (r: Option<(usize, Tier)>)
    ensures
        r matches Some((i, t)) ==> i < hub@.len() && matched(*s, hub@) == Some(
            (hub@[i as int], t),
        ),
        r is None ==> matched(*s, hub@) is None,
{
    let leaf = last_token(s.norm.as_str());
    let mut exact = Found { first: None, one_key: true, several: false };
    let mut canon = Found { first: None, one_key: true, several: false };
    let mut leaves = Found { first: None, one_key: true, several: false };
    let ghost pe = spelled(s.norm@);
    let ghost pc = canonical(s.canon@);
    let ghost pl = leafed(leaf@);
    let mut i: usize = 0;
    proof {
        reveal(Seq::filter);
    }
    while i < hub.len()
        invariant
            i <= hub@.len(),
            pe == spelled(s.norm@),
            pc == canonical(s.canon@),
            pl == leafed(leaf@),
            found_is(exact, hub@, hub@.take(i as int).filter(pe)),
            found_is(canon, hub@, hub@.take(i as int).filter(pc)),
            found_is(leaves, hub@, hub@.take(i as int).filter(pl)),
        decreases hub@.len() - i,
    {
        let h = &hub[i];
        proof {
            filter_step(hub@, i as int, pe);
            filter_step(hub@, i as int, pc);
            filter_step(hub@, i as int, pl);
        }
        if same(h.norm.as_str(), s.norm.as_str()) {
            exact = take_candidate(exact, hub, i, Ghost(hub@.take(i as int).filter(pe)));
        }
        if same(h.canon.as_str(), s.canon.as_str()) {
            canon = take_candidate(canon, hub, i, Ghost(hub@.take(i as int).filter(pc)));
        }
        let token = last_token(h.norm.as_str());
        if same(token.as_str(), leaf.as_str()) {
            leaves = take_candidate(leaves, hub, i, Ghost(hub@.take(i as int).filter(pl)));
        }
        i = i + 1;
    }
    assert(hub@.take(hub@.len() as int) =~= hub@);
    match exact.first {
        Some(e) => {
            let agrees = same(hub[e].own.value.as_str(), s.own.value.as_str());
            return Some((e, Tier::Exact { agrees }));
        },
        None => {},
    }
    match canon.first {
        Some(c) => {
            if canon.one_key {
                let agrees = same(hub[c].own.value.as_str(), s.own.value.as_str());
                return Some((c, Tier::Canonical { agrees }));
            }
        },
        None => {},
    }
    match leaves.first {
        Some(l) => {
            if !leaves.several {
                return Some((l, Tier::Leaf));
            }
        },
        None => {},
    }
    None
}

/// Matches every spoke key against the hub keys. Gives the correspondences and
/// the orphans, each in the order of the spoke's keys.
pub fn match_against_hub(spoke: &Vec<SpelledKey>, hub: &Vec<SpelledKey>) -> (r: (
    Vec<KeyMatch>,
    Vec<ConfigKey>,
))
    ensures
        r.0@.len() == spoke@.filter(has_match(hub@)).len(),
        forall|i: int|
            0 <= i < r.0@.len() ==> records(
                #[trigger] r.0@[i],
                spoke@.filter(has_match(hub@))[i],
                hub@,
            ),
        r.1@ == own_keys(spoke@.filter(is_orphan(hub@))),
{
    let mut matches: Vec<KeyMatch> = Vec::new();
    let mut orphans: Vec<ConfigKey> = Vec::new();
    let ghost pm = has_match(hub@);
    let ghost po = is_orphan(hub@);
    let mut i: usize = 0;
    proof {
        reveal(Seq::filter);
        assert(orphans@ =~= own_keys(spoke@.take(0).filter(po)));
    }
    while i < spoke.len()
        invariant
            i <= spoke@.len(),
            pm == has_match(hub@),
            po == is_orphan(hub@),
            matches@.len() == spoke@.take(i as int).filter(pm).len(),
            forall|k: int|
                0 <= k < matches@.len() ==> records(
                    #[trigger] matches@[k],
                    spoke@.take(i as int).filter(pm)[k],
                    hub@,
                ),
            orphans@ == own_keys(spoke@.take(i as int).filter(po)),
        decreases spoke@.len() - i,
    {
        let s = &spoke[i];
        proof {
            filter_step(spoke@, i as int, pm);
            filter_step(spoke@, i as int, po);
        }
        match find_match(s, hub) {
            Some((h, t)) => {
                matches.push(
                    KeyMatch {
                        spoke_key: s.own.key.clone(),
                        spoke_file: s.own.file.clone(),
                        hub_key: hub[h].own.key.clone(),
                        hub_file: hub[h].own.file.clone(),
                        confidence: score(t),
                    },
                );
            },
            None => {
                let ghost was = spoke@.take(i as int).filter(po);
                orphans.push(s.own.clone());
                assert(own_keys(was.push(*s)) =~= own_keys(was).push(s.own));
            },
        }
        i = i + 1;
    }
    assert(spoke@.take(spoke@.len() as int) =~= spoke@);
    (matches, orphans)
}

// ---------------------------------------------------------------------------
// The facts that record them
// ---------------------------------------------------------------------------

/// A node that stands in for one of another project.
#[derive(Debug)]
pub struct ExternalRef {
    pub key: String,
    /// The node it stands in for.
    pub qualified: String,
}

/// The facts of one import layer.
#[derive(Debug)]
pub struct FactSet {
    pub nodes: Vec<ExternalRef>,
    pub edges: Vec<Edge>,
}

/// The hub's node that a match refers to.
pub open spec fn target_of(hub: Seq<char>, m: KeyMatch) -> Seq<char> {
    qualified_of(hub, cfgkey_of(m.hub_file@, m.hub_key@))
}

/// The facts record the matches: for each, a node standing in for the hub's key
/// and an inferred reference to it from the spoke's own.
pub open spec fn facts_record(f: FactSet, hub: Seq<char>, matches: Seq<KeyMatch>, stamp: Seq<char>) -> bool {
    &&& f.nodes@.len() == matches.len()
    &&& f.edges@.len() == matches.len()
    &&& forall|i: int|
        #![trigger f.nodes@[i]]
        0 <= i < matches.len() ==> f.nodes@[i].qualified@ == target_of(hub, matches[i])
            && f.nodes@[i].key@ == extref_of(target_of(hub, matches[i]))
    &&& forall|i: int|
        #![trigger f.edges@[i]]
        0 <= i < matches.len() ==> {
            &&& f.edges@[i].src@ == cfgkey_of(matches[i].spoke_file@, matches[i].spoke_key@)
            &&& f.edges@[i].dst@ == extref_of(target_of(hub, matches[i]))
            &&& f.edges@[i].kind@ == "references"@
            &&& f.edges@[i].provenance == Provenance::Inferred
            &&& f.edges@[i].confidence == Some(matches[i].confidence)
            &&& f.edges@[i].src_ref matches Some(s) && s@ == stamp
        }
}

/// The facts that record one spoke's links to `hub_project`, stamped `stamp`.
pub fn link_facts(hub_project: &str, matches: &Vec<KeyMatch>, stamp: &str) -> (f: FactSet)
    ensures
        facts_record(f, hub_project@, matches@, stamp@),
{
    let mut nodes: Vec<ExternalRef> = Vec::new();
    let mut edges: Vec<Edge> = Vec::new();
    let mut i: usize = 0;
    while i < matches.len()
        invariant
            i <= matches@.len(),
            nodes@.len() == i,
            edges@.len() == i,
            forall|k: int|
                #![trigger nodes@[k]]
                0 <= k < i ==> nodes@[k].qualified@ == target_of(hub_project@, matches@[k])
                    && nodes@[k].key@ == extref_of(target_of(hub_project@, matches@[k])),
            forall|k: int|
                #![trigger edges@[k]]
                0 <= k < i ==> {
                    &&& edges@[k].src@ == cfgkey_of(matches@[k].spoke_file@, matches@[k].spoke_key@)
                    &&& edges@[k].dst@ == extref_of(target_of(hub_project@, matches@[k]))
                    &&& edges@[k].kind@ == "references"@
                    &&& edges@[k].provenance == Provenance::Inferred
                    &&& edges@[k].confidence == Some(matches@[k].confidence)
                    &&& edges@[k].src_ref matches Some(s) && s@ == stamp@
                },
        decreases matches@.len() - i,
    {
        let m = &matches[i];
        let hub_node = cfgkey_node(m.hub_file.as_str(), m.hub_key.as_str());
        let qualified = qualify(hub_project, hub_node.as_str());
        let key = external_ref_key(qualified.as_str());
        edges.push(
            Edge {
                src: cfgkey_node(m.spoke_file.as_str(), m.spoke_key.as_str()),
                dst: key.clone(),
                kind: "references".to_owned(),
                provenance: Provenance::Inferred,
                confidence: Some(m.confidence.clone()),
                src_ref: Some(stamp.to_owned()),
            },
        );
        nodes.push(ExternalRef { key, qualified });
        i = i + 1;
    }
    FactSet { nodes, edges }
}

// ---------------------------------------------------------------------------
// Laws
// ---------------------------------------------------------------------------

/// Every spoke key is either matched or an orphan: none is lost, none counted
/// twice.
pub proof fn every_key_is_matched_or_orphaned(spoke: Seq<SpelledKey>, hub: Seq<SpelledKey>)
    ensures
        spoke.filter(has_match(hub)).len() + spoke.filter(is_orphan(hub)).len() == spoke.len(),
    decreases spoke.len(),
{
    reveal(Seq::filter);
    if spoke.len() > 0 {
        every_key_is_matched_or_orphaned(spoke.drop_last(), hub);
    }
}

/// A hub key of exactly the spoke key's name wins over any looser one, and over
/// any later one of that name.
pub proof fn an_exact_name_wins(s: SpelledKey, hub: Seq<SpelledKey>, i: int)
    requires
        0 <= i < hub.len(),
        hub[i].norm@ == s.norm@,
        forall|j: int| 0 <= j < i ==> (#[trigger] hub[j]).norm@ != s.norm@,
    ensures
        matched(s, hub) == Some(
            (hub[i], Tier::Exact { agrees: hub[i].own.value@ == s.own.value@ }),
        ),
{
    let p = spelled(s.norm@);
    first_that_passes(hub, p, i);
}

proof fn first_that_passes(hub: Seq<SpelledKey>, p: spec_fn(SpelledKey) -> bool, i: int)
    requires
        0 <= i < hub.len(),
        p(hub[i]),
        forall|j: int| 0 <= j < i ==> !p(#[trigger] hub[j]),
    ensures
        hub.filter(p).len() > 0,
        hub.filter(p)[0] == hub[i],
    decreases hub.len(),
{
    reveal(Seq::filter);
    let rest = hub.drop_last();
    if i < rest.len() {
        first_that_passes(rest, p, i);
    } else {
        filtered(rest, p);
        if rest.filter(p).len() > 0 {
            assert(p(rest.filter(p)[0]));
            let k = choose|k: int| 0 <= k < rest.len() && rest[k] == rest.filter(p)[0];
            assert(!p(hub[k]));
        }
    }
}

/// A match is never made up: what a key is matched to is a key of the hub that
/// shares its name, its canonical name or its last segment.
pub proof fn a_match_is_a_hub_key(s: SpelledKey, hub: Seq<SpelledKey>)
    requires
        matched(s, hub) is Some,
    ensures
        hub.contains((matched(s, hub)->0).0),
        ({
            let h = (matched(s, hub)->0).0;
            h.norm@ == s.norm@ || h.canon@ == s.canon@ || leaf_of(h.norm@) == leaf_of(s.norm@)
        }),
{
    filtered(hub, spelled(s.norm@));
    filtered(hub, canonical(s.canon@));
    filtered(hub, leafed(leaf_of(s.norm@)));
}

/// Two different hub keys of one canonical name are never chosen between: with
/// no exact name, a key that could be either is matched to neither by it.
pub proof fn an_ambiguous_name_links_nothing(s: SpelledKey, hub: Seq<SpelledKey>, i: int, j: int)
    requires
        0 <= i < hub.len(),
        0 <= j < hub.len(),
        hub[i].canon@ == s.canon@,
        hub[j].canon@ == s.canon@,
        hub[i].own.key@ != hub[j].own.key@,
    ensures
        matched(s, hub) matches Some((h, t)) ==> !(t is Canonical),
{
    let p = canonical(s.canon@);
    filtered(hub, p);
    let cands = hub.filter(p);
    assert(cands.contains(hub[i]));
    assert(cands.contains(hub[j]));
    let a = choose|a: int| 0 <= a < cands.len() && cands[a] == hub[i];
    let b = choose|b: int| 0 <= b < cands.len() && cands[b] == hub[j];
    if one_key(cands) {
        assert(cands[a].own.key@ == cands[0].own.key@);
        assert(cands[b].own.key@ == cands[0].own.key@);
    }
}

/// Some key of the hub has this normalised name.
pub open spec fn has_name(hub: Seq<SpelledKey>, norm: Seq<char>) -> bool {
    exists|j: int| 0 <= j < hub.len() && (#[trigger] hub[j]).norm@ == norm
}

/// The keys of the hub with this canonical name are one key: there is one, and no
/// two of them differ.
pub open spec fn settles(hub: Seq<SpelledKey>, canon: Seq<char>) -> bool {
    &&& exists|j: int| 0 <= j < hub.len() && (#[trigger] hub[j]).canon@ == canon
    &&& forall|i: int, j: int|
        #![trigger hub[i], hub[j]]
        0 <= i < hub.len() && 0 <= j < hub.len() && hub[i].canon@ == canon && hub[j].canon@ == canon
            ==> hub[i].own.key@ == hub[j].own.key@
}

/// Only the hub key at `i` ends in this segment.
pub open spec fn ends_alone(hub: Seq<SpelledKey>, leaf: Seq<char>, i: int) -> bool {
    &&& 0 <= i < hub.len()
    &&& forall|j: int|
        #![trigger hub[j]]
        0 <= j < hub.len() ==> (leaf_of(hub[j].norm@) == leaf <==> j == i)
}

proof fn settling_is_one_key(hub: Seq<SpelledKey>, canon: Seq<char>)
    ensures
        one_key(hub.filter(canonical(canon))) == settles(hub, canon),
{
    let p = canonical(canon);
    let c = hub.filter(p);
    filtered(hub, p);
    if settles(hub, canon) {
        let j = choose|j: int| 0 <= j < hub.len() && (#[trigger] hub[j]).canon@ == canon;
        assert(c.contains(hub[j]));
        assert forall|i: int| 0 <= i < c.len() implies (#[trigger] c[i]).own.key@ == c[0].own.key@ by {
            let a = choose|a: int| 0 <= a < hub.len() && hub[a] == c[i];
            let b = choose|b: int| 0 <= b < hub.len() && hub[b] == c[0];
            assert(p(c[i]) && p(c[0]));
            assert(hub[a].own.key@ == hub[b].own.key@);
        }
    }
    if one_key(c) {
        assert(p(c[0]));
        let b = choose|b: int| 0 <= b < hub.len() && hub[b] == c[0];
        assert(hub[b].canon@ == canon);
        assert forall|i: int, j: int|
            #![trigger hub[i], hub[j]]
            0 <= i < hub.len() && 0 <= j < hub.len() && hub[i].canon@ == canon && hub[j].canon@
                == canon implies hub[i].own.key@ == hub[j].own.key@ by {
            assert(p(hub[i]) && p(hub[j]));
            assert(c.contains(hub[i]) && c.contains(hub[j]));
            let x = choose|x: int| 0 <= x < c.len() && c[x] == hub[i];
            let y = choose|y: int| 0 <= y < c.len() && c[y] == hub[j];
            assert(c[x].own.key@ == c[y].own.key@);
        }
    }
}

proof fn no_exact(hub: Seq<SpelledKey>, norm: Seq<char>)
    requires
        !has_name(hub, norm),
    ensures
        hub.filter(spelled(norm)).len() == 0,
{
    let p = spelled(norm);
    filtered(hub, p);
    if hub.filter(p).len() > 0 {
        assert(p(hub.filter(p)[0]));
        let k = choose|k: int| 0 <= k < hub.len() && hub[k] == hub.filter(p)[0];
        assert(hub[k].norm@ == norm);
    }
}

proof fn alone_in_filter(hub: Seq<SpelledKey>, p: spec_fn(SpelledKey) -> bool, i: int)
    requires
        0 <= i < hub.len(),
        forall|j: int| #![trigger hub[j]] 0 <= j < hub.len() ==> (p(hub[j]) <==> j == i),
    ensures
        hub.filter(p) == seq![hub[i]],
    decreases hub.len(),
{
    reveal(Seq::filter);
    let rest = hub.drop_last();
    if i == rest.len() {
        none_in_filter(rest, p);
        assert(hub.filter(p) =~= seq![hub[i]]);
    } else {
        assert(rest[i] == hub[i]);
        alone_in_filter(rest, p, i);
        assert(!p(hub[hub.len() - 1]));
    }
}

proof fn none_in_filter(hub: Seq<SpelledKey>, p: spec_fn(SpelledKey) -> bool)
    requires
        forall|j: int| #![trigger hub[j]] 0 <= j < hub.len() ==> !p(hub[j]),
    ensures
        hub.filter(p).len() == 0,
{
    filtered(hub, p);
    if hub.filter(p).len() > 0 {
        assert(p(hub.filter(p)[0]));
        let k = choose|k: int| 0 <= k < hub.len() && hub[k] == hub.filter(p)[0];
        assert(!p(hub[k]));
    }
}

proof fn two_in_filter(hub: Seq<SpelledKey>, p: spec_fn(SpelledKey) -> bool, i: int, j: int)
    requires
        0 <= i < j < hub.len(),
        p(hub[i]),
        p(hub[j]),
    ensures
        hub.filter(p).len() >= 2,
    decreases hub.len(),
{
    reveal(Seq::filter);
    let rest = hub.drop_last();
    if j < rest.len() {
        assert(rest[i] == hub[i] && rest[j] == hub[j]);
        two_in_filter(rest, p, i, j);
    } else {
        assert(rest[i] == hub[i]);
        filtered(rest, p);
        assert(rest.filter(p).contains(hub[i]));
    }
}

/// With no hub key of its name, a key is matched by its canonical name wherever
/// all hub keys of that name are one key: to the first of them, whatever either
/// side's value is.
pub proof fn a_settled_name_links(s: SpelledKey, hub: Seq<SpelledKey>, i: int)
    requires
        !has_name(hub, s.norm@),
        settles(hub, s.canon@),
        0 <= i < hub.len(),
        hub[i].canon@ == s.canon@,
        forall|j: int| 0 <= j < i ==> (#[trigger] hub[j]).canon@ != s.canon@,
    ensures
        matched(s, hub) == Some(
            (hub[i], Tier::Canonical { agrees: hub[i].own.value@ == s.own.value@ }),
        ),
{
    no_exact(hub, s.norm@);
    settling_is_one_key(hub, s.canon@);
    first_that_passes(hub, canonical(s.canon@), i);
}

/// With no hub key of its name, and none that its canonical name settles on, a
/// key is matched to the one hub key that shares its last segment, whatever the
/// two values are; where no hub key shares it, or more than one does, to none.
pub proof fn a_lone_last_segment_links(s: SpelledKey, hub: Seq<SpelledKey>)
    requires
        !has_name(hub, s.norm@),
        !settles(hub, s.canon@),
    ensures
        forall|i: int| #[trigger]
            ends_alone(hub, leaf_of(s.norm@), i) ==> matched(s, hub) == Some((hub[i], Tier::Leaf)),
        (forall|i: int| !ends_alone(hub, leaf_of(s.norm@), i)) ==> matched(s, hub) is None,
{
    let leaf = leaf_of(s.norm@);
    let p = leafed(leaf);
    no_exact(hub, s.norm@);
    settling_is_one_key(hub, s.canon@);
    assert forall|i: int| #[trigger] ends_alone(hub, leaf, i) implies matched(s, hub) == Some(
        (hub[i], Tier::Leaf),
    ) by {
        alone_in_filter(hub, p, i);
    }
    if forall|i: int| !ends_alone(hub, leaf, i) {
        if exists|i: int| 0 <= i < hub.len() && p(#[trigger] hub[i]) {
            let i = choose|i: int| 0 <= i < hub.len() && p(#[trigger] hub[i]);
            assert(!ends_alone(hub, leaf, i));
            let j = choose|j: int|
                #![trigger hub[j]]
                0 <= j < hub.len() && !(leaf_of(hub[j].norm@) == leaf <==> j == i);
            assert(p(hub[j]));
            if i < j {
                two_in_filter(hub, p, i, j);
            } else {
                two_in_filter(hub, p, j, i);
            }
        } else {
            none_in_filter(hub, p);
        }
    }
}

/// The last segment of a name is what follows its last full stop; a name without
/// one is its own last segment.
pub proof fn the_last_segment_follows_the_last_stop(front: Seq<char>, leaf: Seq<char>)
    requires
        !leaf.contains('.'),
    ensures
        leaf_of(leaf) == leaf,
        leaf_of(front + seq!['.'] + leaf) == leaf,
{
    last_piece(front, leaf, '.');
}

/// What is matched to what does not depend on any value: with other values on
/// either side, a key is matched to the hub key at the same place, by the same
/// kind of likeness, or is an orphan again.
pub proof fn values_choose_nothing(
    s: SpelledKey,
    t: SpelledKey,
    hub: Seq<SpelledKey>,
    again: Seq<SpelledKey>,
)
    requires
        s.norm@ == t.norm@,
        s.canon@ == t.canon@,
        hub.len() == again.len(),
        forall|i: int|
            #![trigger hub[i]]
            #![trigger again[i]]
            0 <= i < hub.len() ==> hub[i].norm@ == again[i].norm@ && hub[i].canon@
                == again[i].canon@ && hub[i].own.key@ == again[i].own.key@,
    ensures
        matched(s, hub) is Some <==> matched(t, again) is Some,
        matched(s, hub) is Some ==> exists|i: int|
            #![trigger hub[i]]
            0 <= i < hub.len() && (matched(s, hub)->0).0 == hub[i] && (matched(t, again)->0).0
                == again[i],
        matched(s, hub) matches Some((_, x)) ==> (matched(t, again) matches Some((_, y)) && (
        x is Exact <==> y is Exact) && (x is Canonical <==> y is Canonical) && (x is Leaf
            <==> y is Leaf)),
{
    if has_name(hub, s.norm@) {
        let j = choose|j: int| 0 <= j < hub.len() && (#[trigger] hub[j]).norm@ == s.norm@;
        let i = least(hub, spelled(s.norm@), j);
        an_exact_name_wins(s, hub, i);
        assert forall|j: int| 0 <= j < i implies (#[trigger] again[j]).norm@ != t.norm@ by {
            assert(!spelled(s.norm@)(hub[j]));
        }
        an_exact_name_wins(t, again, i);
    } else {
        assert(!has_name(again, t.norm@)) by {
            if has_name(again, t.norm@) {
                let j = choose|j: int| 0 <= j < again.len() && (#[trigger] again[j]).norm@ == t.norm@;
                assert(hub[j].norm@ == s.norm@);
            }
        }
        settles_alike(hub, again, s.canon@);
        settles_alike(again, hub, s.canon@);
        if settles(hub, s.canon@) {
            let j = choose|j: int| 0 <= j < hub.len() && (#[trigger] hub[j]).canon@ == s.canon@;
            let i = least(hub, canonical(s.canon@), j);
            a_settled_name_links(s, hub, i);
            assert forall|j: int| 0 <= j < i implies (#[trigger] again[j]).canon@ != t.canon@ by {
                assert(!canonical(s.canon@)(hub[j]));
            }
            a_settled_name_links(t, again, i);
        } else {
            a_lone_last_segment_links(s, hub);
            a_lone_last_segment_links(t, again);
            assert forall|i: int| #[trigger]
                ends_alone(hub, leaf_of(s.norm@), i) == ends_alone(again, leaf_of(s.norm@), i) by {
                if ends_alone(hub, leaf_of(s.norm@), i) {
                    assert forall|j: int|
                        #![trigger again[j]]
                        0 <= j < again.len() implies (leaf_of(again[j].norm@) == leaf_of(s.norm@)
                        <==> j == i) by {
                        assert(hub[j].norm@ == again[j].norm@);
                    }
                }
                if ends_alone(again, leaf_of(s.norm@), i) {
                    assert forall|j: int|
                        #![trigger hub[j]]
                        0 <= j < hub.len() implies (leaf_of(hub[j].norm@) == leaf_of(s.norm@) <==> j
                        == i) by {
                        assert(hub[j].norm@ == again[j].norm@);
                    }
                }
            }
            if exists|i: int| ends_alone(hub, leaf_of(s.norm@), i) {
                let i = choose|i: int| ends_alone(hub, leaf_of(s.norm@), i);
                assert(ends_alone(again, leaf_of(s.norm@), i));
                assert((matched(s, hub)->0).0 == hub[i]);
            } else {
                assert forall|i: int| !ends_alone(again, leaf_of(t.norm@), i) by {
                    assert(ends_alone(hub, leaf_of(s.norm@), i) == ends_alone(
                        again,
                        leaf_of(s.norm@),
                        i,
                    ));
                }
            }
        }
    }
}

proof fn settles_alike(hub: Seq<SpelledKey>, again: Seq<SpelledKey>, canon: Seq<char>)
    requires
        hub.len() == again.len(),
        forall|i: int|
            #![trigger hub[i]]
            #![trigger again[i]]
            0 <= i < hub.len() ==> hub[i].canon@ == again[i].canon@ && hub[i].own.key@
                == again[i].own.key@,
    ensures
        settles(hub, canon) ==> settles(again, canon),
{
    if settles(hub, canon) {
        let j = choose|j: int| 0 <= j < hub.len() && (#[trigger] hub[j]).canon@ == canon;
        assert(again[j].canon@ == canon);
        assert forall|i: int, j: int|
            #![trigger again[i], again[j]]
            0 <= i < again.len() && 0 <= j < again.len() && again[i].canon@ == canon
                && again[j].canon@ == canon implies again[i].own.key@ == again[j].own.key@ by {
            assert(hub[i].own.key@ == hub[j].own.key@);
        }
    }
}

proof fn least(hub: Seq<SpelledKey>, p: spec_fn(SpelledKey) -> bool, j: int) -> (i: int)
    requires
        0 <= j < hub.len(),
        p(hub[j]),
    ensures
        0 <= i <= j,
        p(hub[i]),
        forall|k: int| 0 <= k < i ==> !p(#[trigger] hub[k]),
    decreases j,
{
    if exists|k: int| 0 <= k < j && p(#[trigger] hub[k]) {
        let k = choose|k: int| 0 <= k < j && p(#[trigger] hub[k]);
        least(hub, p, k)
    } else {
        j
    }
}

/// The surer kinds of likeness score higher, and agreeing values raise the score
/// within a kind: same name and value, then same canonical name and value, then
/// the names alone, then the last segment.
pub proof fn surer_matches_score_higher()
    ensures
        score_of(Tier::Exact { agrees: true }).0 > score_of(Tier::Canonical { agrees: true }).0,
        score_of(Tier::Canonical { agrees: true }).0 > score_of(Tier::Exact { agrees: false }).0,
        score_of(Tier::Exact { agrees: false }).0 > score_of(Tier::Canonical { agrees: false }).0,
        score_of(Tier::Canonical { agrees: false }).0 > score_of(Tier::Leaf).0,
        score_of(Tier::Leaf).0 > 0x3FE0000000000000,
{
}

/// The key is one of the spoke's that are matched to nothing.
pub open spec fn lacks_a_match(k: ConfigKey, spoke: Seq<SpelledKey>, hub: Seq<SpelledKey>) -> bool {
    exists|i: int|
        0 <= i < spoke.len() && (#[trigger] spoke[i]).own == k && matched(spoke[i], hub) is None
}

/// Every key of the spoke is reported, where it stood: as a match that names it
/// and the hub key it was matched to, or, untouched, among the orphans; and what
/// is reported is of the spoke and, where it is matched, of the hub.
pub proof fn every_spoke_key_is_reported(
    matches: Seq<KeyMatch>,
    orphans: Seq<ConfigKey>,
    spoke: Seq<SpelledKey>,
    hub: Seq<SpelledKey>,
)
    requires
        matches.len() == spoke.filter(has_match(hub)).len(),
        forall|i: int|
            0 <= i < matches.len() ==> records(
                #[trigger] matches[i],
                spoke.filter(has_match(hub))[i],
                hub,
            ),
        orphans == own_keys(spoke.filter(is_orphan(hub))),
    ensures
        matches.len() + orphans.len() == spoke.len(),
        forall|i: int|
            #![trigger spoke[i]]
            0 <= i < spoke.len() && matched(spoke[i], hub) is Some ==> exists|k: int|
                0 <= k < matches.len() && (#[trigger] matches[k]).spoke_key@ == spoke[i].own.key@
                    && matches[k].spoke_file@ == spoke[i].own.file@ && matches[k].hub_key@
                    == (matched(spoke[i], hub)->0).0.own.key@ && matches[k].hub_file@ == (matched(
                    spoke[i],
                    hub,
                )->0).0.own.file@,
        forall|i: int|
            #![trigger spoke[i]]
            0 <= i < spoke.len() && matched(spoke[i], hub) is None ==> orphans.contains(
                spoke[i].own,
            ),
        forall|k: int|
            0 <= k < orphans.len() ==> lacks_a_match(#[trigger] orphans[k], spoke, hub),
{
    let pm = has_match(hub);
    let po = is_orphan(hub);
    let ms = spoke.filter(pm);
    let os = spoke.filter(po);
    filtered(spoke, pm);
    filtered(spoke, po);
    every_key_is_matched_or_orphaned(spoke, hub);
    assert(own_keys(os).len() == os.len());
    assert forall|i: int|
        #![trigger spoke[i]]
        0 <= i < spoke.len() && matched(spoke[i], hub) is Some implies exists|k: int|
        0 <= k < matches.len() && (#[trigger] matches[k]).spoke_key@ == spoke[i].own.key@
            && matches[k].spoke_file@ == spoke[i].own.file@ && matches[k].hub_key@ == (matched(
            spoke[i],
            hub,
        )->0).0.own.key@ && matches[k].hub_file@ == (matched(spoke[i], hub)->0).0.own.file@ by {
        assert(pm(spoke[i]));
        assert(ms.contains(spoke[i]));
        let k = choose|k: int| 0 <= k < ms.len() && ms[k] == spoke[i];
        assert(records(matches[k], ms[k], hub));
    }
    assert forall|i: int|
        #![trigger spoke[i]]
        0 <= i < spoke.len() && matched(spoke[i], hub) is None implies orphans.contains(
        spoke[i].own,
    ) by {
        assert(po(spoke[i]));
        assert(os.contains(spoke[i]));
        let k = choose|k: int| 0 <= k < os.len() && os[k] == spoke[i];
        assert(orphans[k] == spoke[i].own);
    }
    assert forall|k: int| 0 <= k < orphans.len() implies lacks_a_match(
        #[trigger] orphans[k],
        spoke,
        hub,
    ) by {
        assert(po(os[k]) && spoke.contains(os[k]));
        let i = choose|i: int| 0 <= i < spoke.len() && spoke[i] == os[k];
        assert(spoke[i].own == orphans[k]);
    }
}

/// A config key by its texts and spellings.
pub open spec fn key_view(k: SpelledKey) -> (Seq<char>, Seq<char>, Seq<char>, Seq<char>, Seq<char>) {
    (k.own.file@, k.own.key@, k.own.value@, k.norm@, k.canon@)
}

/// Config keys by their texts and spellings.
pub open spec fn keys_view(s: Seq<SpelledKey>) -> Seq<
    (Seq<char>, Seq<char>, Seq<char>, Seq<char>, Seq<char>),
> {
    s.map_values(|k: SpelledKey| key_view(k))
}

/// A match by its texts.
pub open spec fn match_view(m: KeyMatch) -> (
    Seq<char>,
    Seq<char>,
    Seq<char>,
    Seq<char>,
    u64,
    Seq<char>,
) {
    (
        m.spoke_key@,
        m.spoke_file@,
        m.hub_key@,
        m.hub_file@,
        m.confidence.bits,
        m.confidence.shown@,
    )
}

/// An edge by its texts.
#[verifier::ext_equal]
pub struct EdgeView {
    pub src: Seq<char>,
    pub dst: Seq<char>,
    pub kind: Seq<char>,
    pub provenance: Provenance,
    pub confidence: Option<(u64, Seq<char>)>,
    pub src_ref: Option<Seq<char>>,
}

/// A layer of facts by their texts.
#[verifier::ext_equal]
pub struct FactsView {
    pub nodes: Seq<(Seq<char>, Seq<char>)>,
    pub edges: Seq<EdgeView>,
}

/// An edge by its texts.
pub open spec fn edge_view(e: Edge) -> EdgeView {
    EdgeView {
        src: e.src@,
        dst: e.dst@,
        kind: e.kind@,
        provenance: e.provenance,
        confidence: (match e.confidence {
            Some(c) => Some((c.bits, c.shown@)),
            None => None,
        }),
        src_ref: opt_view(e.src_ref),
    }
}

/// A layer of facts by their texts.
pub open spec fn facts_view(f: FactSet) -> FactsView {
    FactsView {
        nodes: f.nodes@.map_values(|n: ExternalRef| (n.key@, n.qualified@)),
        edges: f.edges@.map_values(|e: Edge| edge_view(e)),
    }
}

/// A key's match depends on texts and spellings alone.
pub proof fn matched_alike(
    s: SpelledKey,
    t: SpelledKey,
    hub: Seq<SpelledKey>,
    again: Seq<SpelledKey>,
)
    requires
        key_view(s) == key_view(t),
        keys_view(hub) == keys_view(again),
    ensures
        match (matched(s, hub), matched(t, again)) {
            (Some((h, x)), Some((k, y))) => key_view(h) == key_view(k) && x == y,
            (None, None) => true,
            _ => false,
        },
{
    let v = |k: SpelledKey| key_view(k);
    assert(keys_view(hub).len() == hub.len());
    assert(keys_view(again).len() == again.len());
    assert forall|i: int| 0 <= i < hub.len() implies #[trigger] v(hub[i]) == v(again[i]) by {
        assert(keys_view(hub)[i] == keys_view(again)[i]);
    }
    filter_alike(hub, again, spelled(s.norm@), spelled(t.norm@), v);
    filter_alike(hub, again, canonical(s.canon@), canonical(t.canon@), v);
    filter_alike(hub, again, leafed(leaf_of(s.norm@)), leafed(leaf_of(t.norm@)), v);
    let a = hub.filter(spelled(s.norm@));
    let b = again.filter(spelled(t.norm@));
    if a.len() > 0 {
        assert(v(a[0]) == v(b[0]));
    }
    let a = hub.filter(canonical(s.canon@));
    let b = again.filter(canonical(t.canon@));
    if a.len() > 0 {
        assert(v(a[0]) == v(b[0]));
        assert forall|i: int|
            #![trigger a[i]]
            #![trigger b[i]]
            0 <= i < a.len() implies a[i].own.key@ == b[i].own.key@ by {
            assert(v(a[i]) == v(b[i]));
        }
        assert(one_key(a) == one_key(b));
    }
    let a = hub.filter(leafed(leaf_of(s.norm@)));
    let b = again.filter(leafed(leaf_of(t.norm@)));
    if a.len() > 0 {
        assert(v(a[0]) == v(b[0]));
    }
}

/// What records a key's match depends on texts and spellings alone.
pub proof fn recorded_alike(
    m: KeyMatch,
    n: KeyMatch,
    s: SpelledKey,
    t: SpelledKey,
    hub: Seq<SpelledKey>,
    again: Seq<SpelledKey>,
)
    requires
        key_view(s) == key_view(t),
        keys_view(hub) == keys_view(again),
        records(m, s, hub),
        records(n, t, again),
    ensures
        match_view(m) == match_view(n),
{
    matched_alike(s, t, hub, again);
}

/// Writing the links again writes the same facts, node for node and edge for
/// edge: what is written depends on the matches alone.
pub proof fn writing_again_writes_the_same(
    a: FactSet,
    b: FactSet,
    hub: Seq<char>,
    first: Seq<KeyMatch>,
    second: Seq<KeyMatch>,
    stamp: Seq<char>,
)
    requires
        facts_record(a, hub, first, stamp),
        facts_record(b, hub, second, stamp),
        first.len() == second.len(),
        forall|i: int|
            0 <= i < first.len() ==> match_view(#[trigger] first[i]) == match_view(second[i]),
    ensures
        facts_view(a) == facts_view(b),
{
    let x = facts_view(a);
    let y = facts_view(b);
    assert forall|i: int| 0 <= i < x.nodes.len() implies x.nodes[i] == y.nodes[i] by {
        assert(match_view(first[i]) == match_view(second[i]));
        assert(a.nodes@[i].key@ == b.nodes@[i].key@);
    }
    assert forall|i: int| 0 <= i < x.edges.len() implies x.edges[i] == y.edges[i] by {
        assert(match_view(first[i]) == match_view(second[i]));
        assert(a.edges@[i].src@ == b.edges@[i].src@);
        assert(x.edges[i] =~= y.edges[i]);
    }
    assert(x.nodes =~= y.nodes);
    assert(x.edges =~= y.edges);
}

/// Every match becomes one edge, in order, from the spoke's own key, in the file it
/// stands in, to a node that stands in for the hub's key, in the hub's file: an
/// inferred reference with the match's confidence, written under the stamp.
pub proof fn every_match_becomes_an_edge(
    f: FactSet,
    hub: Seq<char>,
    matches: Seq<KeyMatch>,
    stamp: Seq<char>,
    i: int,
)
    requires
        facts_record(f, hub, matches, stamp),
        0 <= i < matches.len(),
    ensures
        f.edges@.len() == matches.len(),
        f.nodes@.len() == matches.len(),
        f.edges@[i].src@ == "cfgkey:"@ + matches[i].spoke_file@ + "#"@ + matches[i].spoke_key@,
        f.nodes@[i].qualified@ == hub + "::"@ + ("cfgkey:"@ + matches[i].hub_file@ + "#"@
            + matches[i].hub_key@),
        f.nodes@[i].key@ == "extref:"@ + f.nodes@[i].qualified@,
        f.edges@[i].dst@ == f.nodes@[i].key@,
        f.edges@[i].kind@ == "references"@,
        f.edges@[i].provenance == Provenance::Inferred,
        f.edges@[i].confidence == Some(matches[i].confidence),
        f.edges@[i].src_ref is Some && f.edges@[i].src_ref->0@ == stamp,
{
    assert(f.nodes@[i].qualified@ == target_of(hub, matches[i]));
    assert(f.edges@[i].dst@ == extref_of(target_of(hub, matches[i])));
}

} // verus!
