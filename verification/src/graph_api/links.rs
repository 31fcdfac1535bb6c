//! The cross-repo views: what a spoke's keys correspond to in the hub, how the
//! projects hang together, and what is written down of it.
use vstd::prelude::*;

use crate::graph::{
    cfgkey_node, cfgkey_of, external_ref_key, extref_of, qualified_of, qualify, ConfigKey,
    Placeholder, Provenance, Score,
};
use crate::graph_api::hub::{Link, Project};
use crate::infer_links::{
    has_match, is_orphan, match_against_hub, matched, own_keys, records, score_of, KeyMatch,
    SpelledKey,
};
use crate::seqs::{picked, picked_facts, picked_of_filter, picked_step};
use crate::text::{is_among, opt_view, same, views};

verus! {

// ---------------------------------------------------------------------------
// Correspondence
// ---------------------------------------------------------------------------

/// A link by its texts.
#[verifier::ext_equal]
pub struct LinkView {
    pub src: Seq<char>,
    pub key: Seq<char>,
    /// The project that the node it leads to is in.
    pub project: Option<Seq<char>>,
    pub qualified: Option<Seq<char>>,
    pub provenance: Provenance,
    pub confidence: Option<(u64, Seq<char>)>,
}

/// A confidence by its bits and its text.
pub open spec fn shown(c: Option<Score>) -> Option<(u64, Seq<char>)> {
    match c {
        Some(s) => Some((s.bits, s.shown@)),
        None => None,
    }
}

/// A link by its texts.
pub open spec fn seen(l: Link) -> LinkView {
    LinkView {
        src: l.src@,
        key: l.node.key@,
        project: opt_view(l.node.project),
        qualified: opt_view(l.node.qualified),
        provenance: l.provenance,
        confidence: shown(l.confidence),
    }
}

/// Links by their texts.
pub open spec fn seen_all(s: Seq<Link>) -> Seq<LinkView> {
    s.map_values(|l: Link| seen(l))
}

/// The nodes that links start at.
pub open spec fn sources(links: Seq<Link>) -> Seq<Seq<char>> {
    links.map_values(|l: Link| l.src@)
}

/// The node of a config key.
pub open spec fn node_of(s: SpelledKey) -> Seq<char> {
    cfgkey_of(s.own.file@, s.own.key@)
}

/// The link inferred for a spoke's key, where the hub has a counterpart and no
/// link of the spoke's own starts there.
pub open spec fn inferred(
    hub: Seq<char>,
    hub_keys: Seq<SpelledKey>,
    persisted: Seq<Seq<char>>,
) -> spec_fn(SpelledKey) -> Option<LinkView> {
    |s: SpelledKey|
        match matched(s, hub_keys) {
            Some((h, t)) => if persisted.contains(node_of(s)) {
                None
            } else {
                let q = qualified_of(hub, node_of(h));
                Some(
                    LinkView {
                        src: node_of(s),
                        key: extref_of(q),
                        project: Some(hub),
                        qualified: Some(q),
                        provenance: Provenance::Inferred,
                        confidence: Some(score_of(t)),
                    },
                )
            },
            None => None,
        }
}

/// A spoke's key and value without a hub counterpart, where no link of the
/// spoke's own starts there.
pub open spec fn stray(hub_keys: Seq<SpelledKey>, persisted: Seq<Seq<char>>) -> spec_fn(
    SpelledKey,
) -> Option<(Seq<char>, Seq<char>)> {
    |s: SpelledKey|
        if matched(s, hub_keys) is None && !persisted.contains(node_of(s)) {
            Some((s.own.key@, s.own.value@))
        } else {
            None
        }
}

/// The target of a link; empty where it names none.
pub open spec fn target(l: LinkView) -> Seq<char> {
    match l.qualified {
        Some(q) => q,
        None => Seq::empty(),
    }
}

/// A link in `s` starts and ends where `l` does.
pub open spec fn has_ends(s: Seq<LinkView>, l: LinkView) -> bool {
    exists|i: int|
        0 <= i < s.len() && (#[trigger] s[i]).src == l.src && target(s[i]) == target(l)
}

/// Of several links with the same ends only the first.
pub open spec fn deduped(s: Seq<LinkView>) -> Seq<LinkView>
    decreases s.len(),
{
    if s.len() == 0 {
        Seq::empty()
    } else {
        let rest = deduped(s.drop_last());
        if has_ends(rest, s.last()) {
            rest
        } else {
            rest.push(s.last())
        }
    }
}

/// A spoke's links and the keys that correspond to nothing.
pub struct SpokeLinks {
    pub refs: Vec<Link>,
    /// Keys and values without a hub counterpart.
    pub orphans: Vec<(String, String)>,
}

/// Keys and values by their texts.
pub open spec fn pairs(s: Seq<(String, String)>) -> Seq<(Seq<char>, Seq<char>)> {
    s.map_values(|p: (String, String)| (p.0@, p.1@))
}

/// `r` is the correspondence of a spoke: its own links, which win, then those
/// inferred; and its stray keys. Without a hub there are its own links alone.
pub open spec fn corresponds(
    r: SpokeLinks,
    spoke: Project,
    hub: Option<Seq<char>>,
    hub_keys: Seq<SpelledKey>,
) -> bool {
    match hub {
        None => seen_all(r.refs@) == seen_all(spoke.links@) && r.orphans@.len() == 0,
        Some(h) => {
            let persisted = sources(spoke.links@);
            &&& seen_all(r.refs@) == deduped(
                seen_all(spoke.links@) + picked(spoke.keys@, inferred(h, hub_keys, persisted)),
            )
            &&& pairs(r.orphans@) == picked(spoke.keys@, stray(hub_keys, persisted))
        },
    }
}

fn copy_links(links: &Vec<Link>) -> (r: Vec<Link>)
    ensures
        r@ == links@,
{
    let mut r: Vec<Link> = Vec::new();
    let mut i: usize = 0;
    while i < links.len()
        invariant
            i <= links@.len(),
            r@ == links@.take(i as int),
        decreases links@.len() - i,
    {
        r.push(links[i].clone());
        i = i + 1;
        assert(r@ =~= links@.take(i as int));
    }
    assert(links@.take(links@.len() as int) =~= links@);
    r
}

fn srcs(links: &Vec<Link>) -> (r: Vec<String>)
    ensures
        views(r@) == sources(links@),
{
    let mut r: Vec<String> = Vec::new();
    let mut i: usize = 0;
    while i < links.len()
        invariant
            i <= links@.len(),
            views(r@) == sources(links@).take(i as int),
        decreases links@.len() - i,
    {
        let ghost was = r@;
        r.push(links[i].src.clone());
        assert(views(r@) =~= views(was).push(links@[i as int].src@));
        i = i + 1;
        assert(views(r@) =~= sources(links@).take(i as int));
    }
    assert(sources(links@).take(links@.len() as int) =~= sources(links@));
    r
}

/// The placeholder for a node of the hub.
fn placeholder(hub: &str, file: &str, key: &str) -> (r: Placeholder)
    ensures
        r.key@ == extref_of(qualified_of(hub@, cfgkey_of(file@, key@))),
        opt_view(r.qualified) == Some(qualified_of(hub@, cfgkey_of(file@, key@))),
        opt_view(r.project) == Some(hub@),
{
    let node = cfgkey_node(file, key);
    let q = qualify(hub, node.as_str());
    Placeholder {
        key: external_ref_key(q.as_str()),
        qualified: Some(q),
        project: Some(hub.to_owned()),
    }
}

/// Adds the links inferred for the matches, given which keys they are of.
fn infer(
    refs: &mut Vec<Link>,
    hub: &str,
    matches: &Vec<KeyMatch>,
    persisted: &Vec<String>,
    Ghost(keys): Ghost<Seq<SpelledKey>>,
    Ghost(hub_keys): Ghost<Seq<SpelledKey>>,
)
    requires
        matches@.len() == keys.len(),
        forall|i: int|
            0 <= i < keys.len() ==> records(#[trigger] matches@[i], keys[i], hub_keys),
    ensures
        seen_all(final(refs)@) == seen_all(old(refs)@) + picked(
            keys,
            inferred(hub@, hub_keys, views(persisted@)),
        ),
{
    let ghost f = inferred(hub@, hub_keys, views(persisted@));
    let ghost base = seen_all(refs@);
    let mut i: usize = 0;
    assert(seen_all(refs@) =~= base + picked(keys.take(0), f));
    while i < matches.len()
        invariant
            i <= matches@.len(),
            matches@.len() == keys.len(),
            forall|k: int|
                0 <= k < keys.len() ==> records(#[trigger] matches@[k], keys[k], hub_keys),
            f == inferred(hub@, hub_keys, views(persisted@)),
            seen_all(refs@) == base + picked(keys.take(i as int), f),
        decreases matches@.len() - i,
    {
        proof {
            picked_step(keys, f, i as int);
        }
        let m = &matches[i];
        let src = cfgkey_node(m.spoke_file.as_str(), m.spoke_key.as_str());
        assert(records(matches@[i as int], keys[i as int], hub_keys));
        assert(src@ == node_of(keys[i as int]));
        if !is_among(persisted, src.as_str()) {
            let ghost was = refs@;
            let ghost before = picked(keys.take(i as int), f);
            let l = Link {
                src,
                node: placeholder(hub, m.hub_file.as_str(), m.hub_key.as_str()),
                provenance: Provenance::Inferred,
                confidence: Some(m.confidence.clone()),
            };
            refs.push(l);
            proof {
                let (h, t) = matched(keys[i as int], hub_keys)->0;
                assert(f(keys[i as int]) is Some);
                assert(seen(l) =~= f(keys[i as int])->0);
                assert(seen_all(refs@) =~= seen_all(was).push(seen(l)));
                assert(base + before.push(seen(l)) =~= (base + before).push(seen(l)));
            }
        }
        i = i + 1;
    }
    assert(keys.take(keys.len() as int) =~= keys);
}

fn same_target(a: &Option<String>, b: &Option<String>) -> (r: bool)
    ensures
        r == ((match opt_view(*a) {
            Some(q) => q,
            None => Seq::empty(),
        }) == (match opt_view(*b) {
            Some(q) => q,
            None => Seq::empty(),
        })),
{
    let x = match a {
        Some(q) => q.as_str(),
        None => {
            proof {
                reveal_strlit("");
                assert(""@ =~= Seq::empty());
            }
            ""
        },
    };
    let y = match b {
        Some(q) => q.as_str(),
        None => {
            proof {
                reveal_strlit("");
                assert(""@ =~= Seq::empty());
            }
            ""
        },
    };
    same(x, y)
}

fn dedupe(refs: &Vec<Link>) -> (r: Vec<Link>)
    ensures
        seen_all(r@) == deduped(seen_all(refs@)),
{
    let ghost all = seen_all(refs@);
    let mut r: Vec<Link> = Vec::new();
    let mut i: usize = 0;
    assert(seen_all(r@) =~= deduped(all.take(0)));
    while i < refs.len()
        invariant
            i <= refs@.len(),
            all == seen_all(refs@),
            seen_all(r@) == deduped(all.take(i as int)),
        decreases refs@.len() - i,
    {
        proof {
            assert(all.take(i + 1).drop_last() =~= all.take(i as int));
            assert(all.take(i + 1).last() == all[i as int]);
        }
        let l = &refs[i];
        let mut j: usize = 0;
        let mut known = false;
        while j < r.len()
            invariant
                j <= r@.len(),
                *l == refs@[i as int],
                known == exists|k: int|
                    0 <= k < j && (#[trigger] seen_all(r@)[k]).src == seen(*l).src && target(
                        seen_all(r@)[k],
                    ) == target(seen(*l)),
            decreases r@.len() - j,
        {
            let here = same(r[j].src.as_str(), l.src.as_str()) && same_target(
                &r[j].node.qualified,
                &l.node.qualified,
            );
            assert(seen_all(r@)[j as int] == seen(r@[j as int]));
            if here {
                assert(seen_all(r@)[j as int].src == seen(*l).src);
                known = true;
            }
            j = j + 1;
        }
        assert(known == has_ends(seen_all(r@), seen(*l)));
        if !known {
            let ghost was = r@;
            r.push(l.clone());
            assert(seen_all(r@) =~= seen_all(was).push(seen(*l)));
        }
        i = i + 1;
    }
    assert(all.take(all.len() as int) =~= all);
    r
}

fn strays(
    orphans: &Vec<ConfigKey>,
    persisted: &Vec<String>,
    Ghost(keys): Ghost<Seq<SpelledKey>>,
    Ghost(hub_keys): Ghost<Seq<SpelledKey>>,
) -> (r: Vec<(String, String)>)
    requires
        orphans@ == own_keys(keys),
        forall|i: int| 0 <= i < keys.len() ==> matched(#[trigger] keys[i], hub_keys) is None,
    ensures
        pairs(r@) == picked(keys, stray(hub_keys, views(persisted@))),
{
    let ghost f = stray(hub_keys, views(persisted@));
    let mut r: Vec<(String, String)> = Vec::new();
    let mut i: usize = 0;
    assert(pairs(r@) =~= picked(keys.take(0), f));
    while i < orphans.len()
        invariant
            i <= orphans@.len(),
            orphans@ == own_keys(keys),
            forall|k: int| 0 <= k < keys.len() ==> matched(#[trigger] keys[k], hub_keys) is None,
            f == stray(hub_keys, views(persisted@)),
            pairs(r@) == picked(keys.take(i as int), f),
        decreases orphans@.len() - i,
    {
        proof {
            picked_step(keys, f, i as int);
            assert(matched(keys[i as int], hub_keys) is None);
            assert(orphans@[i as int] == keys[i as int].own);
        }
        let o = &orphans[i];
        let src = cfgkey_node(o.file.as_str(), o.key.as_str());
        if !is_among(persisted, src.as_str()) {
            let ghost was = r@;
            r.push((o.key.clone(), o.value.clone()));
            assert(pairs(r@) =~= pairs(was).push((o.key@, o.value@)));
        }
        i = i + 1;
    }
    assert(keys.take(keys.len() as int) =~= keys);
    r
}

/// A spoke's correspondences with the hub. A key that a link of the spoke's own
/// starts at is never inferred anew.
pub fn spoke_correspondence(spoke: &Project, hub: &Option<String>, hub_keys: &Vec<SpelledKey>) -> (r:
    SpokeLinks)
    ensures
        corresponds(r, *spoke, opt_view(*hub), hub_keys@),
{
    let mut refs = copy_links(&spoke.links);
    let h = match hub {
        Some(h) => h.as_str(),
        None => {
            return SpokeLinks { refs, orphans: Vec::new() };
        },
    };
    let persisted = srcs(&spoke.links);
    let (matches, key_orphans) = match_against_hub(&spoke.keys, hub_keys);
    let ghost hk = hub_keys@;
    let ghost ps = views(persisted@);
    let ghost met = spoke.keys@.filter(has_match(hk));
    let ghost unmet = spoke.keys@.filter(is_orphan(hk));
    proof {
        picked_of_filter(spoke.keys@, has_match(hk), inferred(h@, hk, ps));
        picked_of_filter(spoke.keys@, is_orphan(hk), stray(hk, ps));
        crate::seqs::filtered(spoke.keys@, is_orphan(hk));
        assert forall|i: int| 0 <= i < unmet.len() implies matched(#[trigger] unmet[i], hk) is None by {
            assert(is_orphan(hk)(unmet[i]));
        }
    }
    infer(&mut refs, h, &matches, &persisted, Ghost(met), Ghost(hk));
    let refs = dedupe(&refs);
    let orphans = strays(&key_orphans, &persisted, Ghost(unmet), Ghost(hk));
    SpokeLinks { refs, orphans }
}

// ---------------------------------------------------------------------------
// Laws
// ---------------------------------------------------------------------------

/// The links a spoke holds itself come first and as they are: nothing that is
/// inferred changes or displaces them.
pub proof fn own_links_lead(own: Seq<LinkView>, more: Seq<LinkView>)
    ensures
        deduped(own).len() <= deduped(own + more).len(),
        deduped(own + more).take(deduped(own).len() as int) == deduped(own),
    decreases more.len(),
{
    let all = own + more;
    let d = deduped(own);
    if more.len() == 0 {
        assert(all =~= own);
        assert(d.take(d.len() as int) =~= d);
    } else {
        let rest = more.drop_last();
        own_links_lead(own, rest);
        assert(all.drop_last() =~= own + rest);
        let e = deduped(own + rest);
        if !has_ends(e, all.last()) {
            assert(e.push(all.last()).take(d.len() as int) =~= e.take(d.len() as int));
        }
    }
}

/// No link is inferred for a key that a link of the spoke's own starts at.
pub proof fn a_linked_key_is_not_inferred(
    keys: Seq<SpelledKey>,
    hub: Seq<char>,
    hub_keys: Seq<SpelledKey>,
    persisted: Seq<Seq<char>>,
    l: LinkView,
)
    requires
        picked(keys, inferred(hub, hub_keys, persisted)).contains(l),
    ensures
        !persisted.contains(l.src),
        l.provenance == Provenance::Inferred,
{
    let f = inferred(hub, hub_keys, persisted);
    picked_facts(keys, f);
    let i = choose|i: int| 0 <= i < keys.len() && f(#[trigger] keys[i]) == Some(l);
    assert(f(keys[i]) == Some(l));
}

/// Every key of a spoke is in exactly one of three places: at the start of a
/// link of its own, matched and inferred, or stray.
pub proof fn every_key_has_its_place(
    s: SpelledKey,
    hub: Seq<char>,
    hub_keys: Seq<SpelledKey>,
    persisted: Seq<Seq<char>>,
)
    ensures
        ({
            let own = persisted.contains(node_of(s));
            let live = inferred(hub, hub_keys, persisted)(s) is Some;
            let lost = stray(hub_keys, persisted)(s) is Some;
            (own || live || lost) && !(own && live) && !(own && lost) && !(live && lost)
        }),
{
}

/// No two of the links kept have the same ends, and leaving out duplicates again
/// leaves out nothing.
pub proof fn kept_links_are_distinct(s: Seq<LinkView>)
    ensures
        forall|i: int, j: int|
            0 <= i < j < deduped(s).len() ==> (#[trigger] deduped(s)[i]).src != (
            #[trigger] deduped(s)[j]).src || target(deduped(s)[i]) != target(deduped(s)[j]),
        deduped(deduped(s)) == deduped(s),
    decreases s.len(),
{
    if s.len() > 0 {
        let rest = s.drop_last();
        kept_links_are_distinct(rest);
        let d = deduped(rest);
        if !has_ends(d, s.last()) {
            let e = deduped(s);
            assert(e.drop_last() =~= d);
            assert(e.last() == s.last());
            assert forall|i: int, j: int| 0 <= i < j < e.len() implies (#[trigger] e[i]).src != (
            #[trigger] e[j]).src || target(e[i]) != target(e[j]) by {
                if j == d.len() {
                    assert(e[i] == d[i]);
                    assert(!has_ends(d, s.last()));
                } else {
                    assert(e[i] == d[i]);
                    assert(e[j] == d[j]);
                }
            }
        }
    }
}

} // verus!
