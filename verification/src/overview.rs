//! The cross-repo config override matrix: the hub's config keys against each
//! spoke that sets them, and the keys that spokes set and the hub does not
//! define. Built from matches that are already made, and shown as text or as a
//! self-contained HTML page.
use vstd::prelude::*;

use crate::graph::{Provenance, Score};
use crate::names::{insert_name, lists, lists_unique, map_facts, NameMap};
use crate::seqs::{filter_push, filtered};
use crate::text::{
    copy_all, copy_opt, decimal, decimal_of, escape_html, escaped, join, join_of, over, over_step,
    same, views,
};

pub mod laws;

verus! {

// ---------------------------------------------------------------------------
// What goes in
// ---------------------------------------------------------------------------

/// One matched override fed into the matrix.
pub struct MatchInput {
    /// The hub config key this override maps to.
    pub hub_key: String,
    /// The file the hub key was read from; empty when unknown.
    pub file: String,
    /// The spoke's own key (its naming convention).
    pub spoke_key: String,
    /// The spoke's value for it.
    pub spoke_value: String,
    /// How sure the match is (meaningful for an inferred link only).
    pub confidence: Score,
    /// How this override link was produced.
    pub provenance: Provenance,
}

/// Which hub version one spoke was resolved against, and where that came from.
#[derive(Debug)]
pub struct SpokePin {
    /// The git rev: a sha, a tag, any rev.
    pub rev: String,
    /// Where the pin was detected, when known.
    pub via: Option<String>,
}

impl Clone for SpokePin {
    fn clone(&self) -> (r: Self)
        ensures
            r == *self,
    {
        SpokePin { rev: self.rev.clone(), via: copy_opt(&self.via) }
    }
}

/// One spoke's contribution to the matrix.
pub struct SpokeInput {
    /// The spoke project.
    pub name: String,
    /// Its matched overrides against the hub.
    pub matches: Vec<MatchInput>,
    /// Its `(key, value)`s without a hub counterpart.
    pub orphans: Vec<(String, String)>,
    /// The hub version this spoke was compared against; `None` for the hub's `HEAD`.
    pub pin: Option<SpokePin>,
}

// ---------------------------------------------------------------------------
// What comes out
// ---------------------------------------------------------------------------

/// One spoke's overriding value for a hub key.
pub struct Cell {
    /// The spoke's value.
    pub value: String,
    /// The spoke's key (may differ in convention from the hub's).
    pub spoke_key: String,
    /// How sure the match is.
    pub confidence: Score,
    /// How the override link was produced.
    pub provenance: Provenance,
    /// The spoke's value is not the hub's: a real override, no restatement.
    pub differs: bool,
}

/// One hub key's row: its default value and each spoke's override of it.
pub struct Row {
    /// The hub config key.
    pub hub_key: String,
    /// The file the hub key was read from; empty when unknown or ambiguous.
    pub file: String,
    /// The hub's own value.
    pub hub_value: String,
    /// The overriding cell per spoke name.
    pub cells: NameMap<Cell>,
}

/// One spoke's setting of a key that the hub does not define.
pub struct DriftCell {
    /// The spoke's value, or its distinct values joined with `" | "`.
    pub value: String,
    /// The spoke gave the key two or more different non-empty values.
    pub conflict: bool,
}

/// A key set by one or more spokes but with no hub counterpart.
pub struct Drift {
    /// The orphan key.
    pub key: String,
    /// Each spoke that sets this key.
    pub cells: NameMap<DriftCell>,
}

/// The assembled cross-repo override matrix.
pub struct OverrideMatrix {
    /// The hub project.
    pub hub: String,
    /// Whether per-spoke pin resolution was asked for.
    pub pinned: bool,
    /// The hub version each spoke was compared against, for those that pinned one.
    pub pins: NameMap<SpokePin>,
    /// The columns: every spoke that overrides or drifts, in order.
    pub spokes: Vec<String>,
    /// One row per overridden hub key, in order.
    pub rows: Vec<Row>,
    /// One row per drifting key, in order.
    pub drift: Vec<Drift>,
}

// ---------------------------------------------------------------------------
// What the matrix is
// ---------------------------------------------------------------------------

/// A match together with the spoke that fed it.
pub type Fed = (Seq<char>, MatchInput);

/// An orphan together with the spoke that fed it.
pub type Stray = (Seq<char>, (String, String));

/// The matches one spoke feeds.
pub open spec fn fed_by(s: SpokeInput) -> Seq<Fed> {
    s.matches@.map_values(|m: MatchInput| (s.name@, m))
}

/// The orphans one spoke feeds.
pub open spec fn strays_of(s: SpokeInput) -> Seq<Stray> {
    s.orphans@.map_values(|o: (String, String)| (s.name@, o))
}

/// All matches, in the order in which they are fed.
pub open spec fn fed(spokes: Seq<SpokeInput>) -> Seq<Fed>
    decreases spokes.len(),
{
    if spokes.len() == 0 {
        Seq::empty()
    } else {
        fed(spokes.drop_last()) + fed_by(spokes.last())
    }
}

/// All orphans, in the order in which they are fed.
pub open spec fn strays(spokes: Seq<SpokeInput>) -> Seq<Stray>
    decreases spokes.len(),
{
    if spokes.len() == 0 {
        Seq::empty()
    } else {
        strays(spokes.drop_last()) + strays_of(spokes.last())
    }
}

/// The hub keys that are matched.
pub open spec fn matched_keys(f: Seq<Fed>) -> Set<Seq<char>> {
    Set::new(|k: Seq<char>| exists|i: int| 0 <= i < f.len() && #[trigger] f[i].1.hub_key@ == k)
}

/// The keys that drift.
pub open spec fn stray_keys(o: Seq<Stray>) -> Set<Seq<char>> {
    Set::new(|k: Seq<char>| exists|i: int| 0 <= i < o.len() && #[trigger] o[i].1.0@ == k)
}

/// The spokes that feed a match or an orphan.
pub open spec fn columns_of(spokes: Seq<SpokeInput>) -> Set<Seq<char>> {
    Set::new(
        |k: Seq<char>|
            exists|i: int|
                #![trigger spokes[i]]
                0 <= i < spokes.len() && spokes[i].name@ == k && (spokes[i].matches@.len() > 0
                    || spokes[i].orphans@.len() > 0),
    )
}

/// The pins, the last one fed under a name being that name's.
pub open spec fn pins_of(spokes: Seq<SpokeInput>) -> Map<Seq<char>, SpokePin>
    decreases spokes.len(),
{
    if spokes.len() == 0 {
        Map::empty()
    } else {
        let rest = pins_of(spokes.drop_last());
        match spokes.last().pin {
            Some(p) => rest.insert(spokes.last().name@, p),
            None => rest,
        }
    }
}

/// The hub's value for a key, empty where it has none.
pub open spec fn hub_value_of(values: Map<Seq<char>, String>, key: Seq<char>) -> Seq<char> {
    if values.contains_key(key) {
        values[key]@
    } else {
        Seq::empty()
    }
}

/// A match is one spoke's for one hub key.
pub open spec fn of_cell(key: Seq<char>, spoke: Seq<char>) -> spec_fn(Fed) -> bool {
    |e: Fed| e.1.hub_key@ == key && e.0 == spoke
}

/// A match gives a value that is not the hub's.
pub open spec fn overrides(hub_value: Seq<char>) -> spec_fn(Fed) -> bool {
    |e: Fed| e.1.spoke_value@ != hub_value
}

/// A match is for one hub key, and names the file that the key was read from.
pub open spec fn names_file(key: Seq<char>) -> spec_fn(Fed) -> bool {
    |e: Fed| e.1.hub_key@ == key && e.1.file@.len() > 0
}

/// The matches that one spoke feeds for one hub key.
pub open spec fn on_cell(f: Seq<Fed>, key: Seq<char>, spoke: Seq<char>) -> Seq<Fed> {
    f.filter(of_cell(key, spoke))
}

/// Of those, the ones whose value is not the hub's.
pub open spec fn differing(f: Seq<Fed>, hub_value: Seq<char>) -> Seq<Fed> {
    f.filter(overrides(hub_value))
}

/// The match a cell shows: the first that differs from the hub, or else the
/// first.
pub open spec fn shown(f: Seq<Fed>, hub_value: Seq<char>) -> Fed {
    if differing(f, hub_value).len() > 0 {
        differing(f, hub_value)[0]
    } else {
        f[0]
    }
}

/// `c` is the cell that shows match `e`.
pub open spec fn shows(c: Cell, e: Fed, hub_value: Seq<char>) -> bool {
    &&& c.value@ == e.1.spoke_value@
    &&& c.spoke_key@ == e.1.spoke_key@
    &&& c.confidence == e.1.confidence
    &&& c.provenance == e.1.provenance
    &&& c.differs == (e.1.spoke_value@ != hub_value)
}

/// The known files of a hub key, one for each of its matches that names one.
pub open spec fn files_of(f: Seq<Fed>, key: Seq<char>) -> Seq<Seq<char>> {
    f.filter(names_file(key)).map_values(|e: Fed| e.1.file@)
}

/// The file on which all of `files` agree; empty where there is none.
pub open spec fn agreed(files: Seq<Seq<char>>) -> Seq<char> {
    if files.len() > 0 && (forall|i: int| 0 <= i < files.len() ==> #[trigger] files[i] == files[0]) {
        files[0]
    } else {
        Seq::empty()
    }
}

/// `r` is the row of its hub key.
pub open spec fn row_is(r: Row, f: Seq<Fed>, values: Map<Seq<char>, String>) -> bool {
    let key = r.hub_key@;
    let hub_value = hub_value_of(values, key);
    &&& r.hub_value@ == hub_value
    &&& r.file@ == agreed(files_of(f, key))
    &&& forall|n: Seq<char>| #[trigger]
        r.cells@.contains_key(n) <==> on_cell(f, key, n).len() > 0
    &&& forall|n: Seq<char>| #[trigger]
        r.cells@.contains_key(n) ==> shows(
            r.cells@[n],
            shown(on_cell(f, key, n), hub_value),
            hub_value,
        )
}

/// Whether a spoke sets a drifting key.
pub open spec fn sets(o: Seq<Stray>, key: Seq<char>, spoke: Seq<char>) -> bool {
    exists|i: int| 0 <= i < o.len() && #[trigger] o[i].1.0@ == key && o[i].0 == spoke
}

/// The distinct non-empty values a spoke gives a drifting key.
pub open spec fn stray_values(o: Seq<Stray>, key: Seq<char>, spoke: Seq<char>) -> Set<Seq<char>> {
    Set::new(
        |v: Seq<char>|
            v.len() > 0 && exists|i: int|
                #![trigger o[i]]
                0 <= i < o.len() && o[i].0 == spoke && o[i].1.0@ == key && o[i].1.1@ == v,
    )
}

/// `c` shows the values of `set`: joined in order, a conflict if there are two
/// or more.
pub open spec fn drift_shows(c: DriftCell, set: Set<Seq<char>>) -> bool {
    exists|vals: Seq<Seq<char>>|
        {
            &&& #[trigger] lists(vals, set)
            &&& c.value@ == join_of(vals, " | "@)
            &&& c.conflict == (vals.len() > 1)
        }
}

/// `d` is the drift row of its key.
pub open spec fn drift_is(d: Drift, o: Seq<Stray>) -> bool {
    &&& forall|n: Seq<char>| #[trigger] d.cells@.contains_key(n) <==> sets(o, d.key@, n)
    &&& forall|n: Seq<char>| #[trigger]
        d.cells@.contains_key(n) ==> drift_shows(d.cells@[n], stray_values(o, d.key@, n))
}

/// The hub keys of `rows`.
pub open spec fn row_keys(rows: Seq<Row>) -> Seq<Seq<char>> {
    rows.map_values(|r: Row| r.hub_key@)
}

/// The keys of the drift rows `rows`.
pub open spec fn drift_keys(rows: Seq<Drift>) -> Seq<Seq<char>> {
    rows.map_values(|d: Drift| d.key@)
}

/// `m` is the matrix of `spokes` against `hub`.
pub open spec fn matrix_is(
    m: OverrideMatrix,
    hub: Seq<char>,
    values: Map<Seq<char>, String>,
    spokes: Seq<SpokeInput>,
    pinned: bool,
) -> bool {
    &&& m.hub@ == hub
    &&& m.pinned == pinned
    &&& m.pins@ == pins_of(spokes)
    &&& lists(views(m.spokes@), columns_of(spokes))
    &&& lists(row_keys(m.rows@), matched_keys(fed(spokes)))
    &&& forall|i: int| 0 <= i < m.rows@.len() ==> row_is(#[trigger] m.rows@[i], fed(spokes), values)
    &&& lists(drift_keys(m.drift@), stray_keys(strays(spokes)))
    &&& forall|i: int| 0 <= i < m.drift@.len() ==> drift_is(#[trigger] m.drift@[i], strays(spokes))
}

// ---------------------------------------------------------------------------
// Building it
// ---------------------------------------------------------------------------

/// The matches fed by the first `i` spokes and by the first `j` matches of the
/// next.
spec fn fed_upto(spokes: Seq<SpokeInput>, i: int, j: int) -> Seq<Fed> {
    fed(spokes.take(i)) + fed_by(spokes[i]).take(j)
}

spec fn strays_upto(spokes: Seq<SpokeInput>, i: int, j: int) -> Seq<Stray> {
    strays(spokes.take(i)) + strays_of(spokes[i]).take(j)
}

proof fn fed_start(spokes: Seq<SpokeInput>, i: int)
    requires
        0 <= i < spokes.len(),
    ensures
        fed_upto(spokes, i, 0) == fed(spokes.take(i)),
        strays_upto(spokes, i, 0) == strays(spokes.take(i)),
{
    assert(fed_upto(spokes, i, 0) =~= fed(spokes.take(i)));
    assert(strays_upto(spokes, i, 0) =~= strays(spokes.take(i)));
}

proof fn fed_step(spokes: Seq<SpokeInput>, i: int, j: int)
    requires
        0 <= i < spokes.len(),
        0 <= j < spokes[i].matches@.len(),
    ensures
        fed_upto(spokes, i, j + 1) == fed_upto(spokes, i, j).push(
            (spokes[i].name@, spokes[i].matches@[j]),
        ),
{
    assert(fed_upto(spokes, i, j + 1) =~= fed_upto(spokes, i, j).push(
        (spokes[i].name@, spokes[i].matches@[j]),
    ));
}

proof fn stray_step(spokes: Seq<SpokeInput>, i: int, j: int)
    requires
        0 <= i < spokes.len(),
        0 <= j < spokes[i].orphans@.len(),
    ensures
        strays_upto(spokes, i, j + 1) == strays_upto(spokes, i, j).push(
            (spokes[i].name@, spokes[i].orphans@[j]),
        ),
{
    assert(strays_upto(spokes, i, j + 1) =~= strays_upto(spokes, i, j).push(
        (spokes[i].name@, spokes[i].orphans@[j]),
    ));
}

proof fn fed_end(spokes: Seq<SpokeInput>, i: int)
    requires
        0 <= i < spokes.len(),
    ensures
        fed_upto(spokes, i, spokes[i].matches@.len() as int) == fed(spokes.take(i + 1)),
        strays_upto(spokes, i, spokes[i].orphans@.len() as int) == strays(spokes.take(i + 1)),
{
    assert(spokes.take(i + 1).drop_last() =~= spokes.take(i));
    assert(fed_by(spokes[i]).take(spokes[i].matches@.len() as int) =~= fed_by(spokes[i]));
    assert(strays_of(spokes[i]).take(spokes[i].orphans@.len() as int) =~= strays_of(spokes[i]));
}

/// The sorted hub keys that are matched.
fn keys_matched(spokes: &Vec<SpokeInput>) -> (keys: Vec<String>)
    ensures
        lists(views(keys@), matched_keys(fed(spokes@))),
{
    let mut keys: Vec<String> = Vec::new();
    let mut i: usize = 0;
    while i < spokes.len()
        invariant
            i <= spokes@.len(),
            lists(views(keys@), matched_keys(fed(spokes@.take(i as int)))),
        decreases spokes@.len() - i,
    {
        let ghost sp = spokes@;
        proof {
            fed_start(sp, i as int);
        }
        let mut j: usize = 0;
        while j < spokes[i].matches.len()
            invariant
                sp == spokes@,
                i < sp.len(),
                j <= sp[i as int].matches@.len(),
                lists(views(keys@), matched_keys(fed_upto(sp, i as int, j as int))),
            decreases sp[i as int].matches@.len() - j,
        {
            let ghost p = fed_upto(sp, i as int, j as int);
            let ghost e = (sp[i as int].name@, sp[i as int].matches@[j as int]);
            proof {
                fed_step(sp, i as int, j as int);
            }
            insert_name(&mut keys, spokes[i].matches[j].hub_key.as_str());
            proof {
                let q = p.push(e);
                assert forall|k: Seq<char>| matched_keys(q).contains(k) <==> matched_keys(
                    p,
                ).contains(k) || k == e.1.hub_key@ by {
                    if matched_keys(p).contains(k) {
                        let a = choose|a: int| 0 <= a < p.len() && #[trigger] p[a].1.hub_key@ == k;
                        assert(q[a].1.hub_key@ == k);
                    }
                    assert(q[p.len() as int] == e);
                    if matched_keys(q).contains(k) && k != e.1.hub_key@ {
                        let a = choose|a: int| 0 <= a < q.len() && #[trigger] q[a].1.hub_key@ == k;
                        assert(p[a].1.hub_key@ == k);
                    }
                }
            }
            j = j + 1;
        }
        proof {
            fed_end(sp, i as int);
        }
        i = i + 1;
    }
    assert(spokes@.take(spokes@.len() as int) =~= spokes@);
    keys
}


/// The sorted keys that drift.
fn keys_stray(spokes: &Vec<SpokeInput>) -> (keys: Vec<String>)
    ensures
        lists(views(keys@), stray_keys(strays(spokes@))),
{
    let mut keys: Vec<String> = Vec::new();
    let mut i: usize = 0;
    while i < spokes.len()
        invariant
            i <= spokes@.len(),
            lists(views(keys@), stray_keys(strays(spokes@.take(i as int)))),
        decreases spokes@.len() - i,
    {
        let ghost sp = spokes@;
        proof {
            fed_start(sp, i as int);
        }
        let mut j: usize = 0;
        while j < spokes[i].orphans.len()
            invariant
                sp == spokes@,
                i < sp.len(),
                j <= sp[i as int].orphans@.len(),
                lists(views(keys@), stray_keys(strays_upto(sp, i as int, j as int))),
            decreases sp[i as int].orphans@.len() - j,
        {
            let ghost p = strays_upto(sp, i as int, j as int);
            let ghost e = (sp[i as int].name@, sp[i as int].orphans@[j as int]);
            proof {
                stray_step(sp, i as int, j as int);
            }
            insert_name(&mut keys, spokes[i].orphans[j].0.as_str());
            proof {
                let q = p.push(e);
                assert forall|k: Seq<char>| stray_keys(q).contains(k) <==> stray_keys(p).contains(k)
                    || k == e.1.0@ by {
                    if stray_keys(p).contains(k) {
                        let a = choose|a: int| 0 <= a < p.len() && #[trigger] p[a].1.0@ == k;
                        assert(q[a].1.0@ == k);
                    }
                    assert(q[p.len() as int] == e);
                    if stray_keys(q).contains(k) && k != e.1.0@ {
                        let a = choose|a: int| 0 <= a < q.len() && #[trigger] q[a].1.0@ == k;
                        assert(p[a].1.0@ == k);
                    }
                }
            }
            j = j + 1;
        }
        proof {
            fed_end(sp, i as int);
        }
        i = i + 1;
    }
    assert(spokes@.take(spokes@.len() as int) =~= spokes@);
    keys
}

/// The sorted names of the spokes that feed something.
fn columns(spokes: &Vec<SpokeInput>) -> (cols: Vec<String>)
    ensures
        lists(views(cols@), columns_of(spokes@)),
{
    let mut cols: Vec<String> = Vec::new();
    let mut i: usize = 0;
    while i < spokes.len()
        invariant
            i <= spokes@.len(),
            lists(views(cols@), columns_of(spokes@.take(i as int))),
        decreases spokes@.len() - i,
    {
        let ghost p = spokes@.take(i as int);
        let ghost q = spokes@.take(i + 1);
        let ghost last = spokes@[i as int];
        let ghost feeds = last.matches@.len() > 0 || last.orphans@.len() > 0;
        if spokes[i].matches.len() > 0 || spokes[i].orphans.len() > 0 {
            insert_name(&mut cols, spokes[i].name.as_str());
        }
        proof {
            assert forall|k: Seq<char>| columns_of(q).contains(k) <==> columns_of(p).contains(k) || (
            feeds && k == last.name@) by {
                if columns_of(p).contains(k) {
                    let a = choose|a: int|
                        #![trigger p[a]]
                        0 <= a < p.len() && p[a].name@ == k && (p[a].matches@.len() > 0
                            || p[a].orphans@.len() > 0);
                    assert(q[a] == p[a]);
                }
                assert(q[i as int] == last);
                if columns_of(q).contains(k) {
                    let a = choose|a: int|
                        #![trigger q[a]]
                        0 <= a < q.len() && q[a].name@ == k && (q[a].matches@.len() > 0
                            || q[a].orphans@.len() > 0);
                    if a < i {
                        assert(p[a] == q[a]);
                    }
                }
            }
        }
        i = i + 1;
    }
    assert(spokes@.take(spokes@.len() as int) =~= spokes@);
    cols
}

/// The pins, the last one fed under a name being that name's.
fn pins(spokes: &Vec<SpokeInput>) -> (m: NameMap<SpokePin>)
    ensures
        m@ == pins_of(spokes@),
{
    let mut m: NameMap<SpokePin> = NameMap::new();
    let mut i: usize = 0;
    while i < spokes.len()
        invariant
            i <= spokes@.len(),
            m@ == pins_of(spokes@.take(i as int)),
        decreases spokes@.len() - i,
    {
        assert(spokes@.take(i + 1).drop_last() =~= spokes@.take(i as int));
        match &spokes[i].pin {
            Some(p) => {
                m.insert(spokes[i].name.as_str(), p.clone());
            },
            None => {},
        }
        i = i + 1;
    }
    assert(spokes@.take(spokes@.len() as int) =~= spokes@);
    m
}

/// What is known of a row after the matches `p`.
spec fn row_so_far(r: Row, ambiguous: bool, p: Seq<Fed>, key: Seq<char>, hub_value: Seq<char>) -> bool {
    let files = files_of(p, key);
    &&& r.hub_key@ == key
    &&& r.hub_value@ == hub_value
    &&& r.file@ == agreed(files)
    &&& ambiguous == exists|i: int| 0 <= i < files.len() && #[trigger] files[i] != files[0]
    &&& forall|n: Seq<char>| #[trigger]
        r.cells@.contains_key(n) <==> on_cell(p, key, n).len() > 0
    &&& forall|n: Seq<char>| #[trigger]
        r.cells@.contains_key(n) ==> shows(
            r.cells@[n],
            shown(on_cell(p, key, n), hub_value),
            hub_value,
        )
}

proof fn files_step(p: Seq<Fed>, e: Fed, key: Seq<char>)
    ensures
        files_of(p.push(e), key) == (if e.1.hub_key@ == key && e.1.file@.len() > 0 {
            files_of(p, key).push(e.1.file@)
        } else {
            files_of(p, key)
        }),
        forall|i: int| 0 <= i < files_of(p, key).len() ==> (#[trigger] files_of(p, key)[i]).len() > 0,
{
    let pred = names_file(key);
    filter_push(p, e, pred);
    let f = p.filter(pred);
    if pred(e) {
        assert(f.push(e).map_values(|e: Fed| e.1.file@) =~= f.map_values(|e: Fed| e.1.file@).push(
            e.1.file@,
        ));
    }
    assert forall|i: int| 0 <= i < files_of(p, key).len() implies (#[trigger] files_of(
        p,
        key,
    )[i]).len() > 0 by {
        filtered(p, pred);
        assert(pred(f[i]));
    }
}

proof fn cell_step(p: Seq<Fed>, e: Fed, key: Seq<char>, hub_value: Seq<char>)
    ensures
        forall|n: Seq<char>| #[trigger]
            on_cell(p.push(e), key, n) == (if e.1.hub_key@ == key && e.0 == n {
                on_cell(p, key, n).push(e)
            } else {
                on_cell(p, key, n)
            }),
        forall|n: Seq<char>|
            e.1.hub_key@ == key && e.0 == n ==> #[trigger] differing(
                on_cell(p.push(e), key, n),
                hub_value,
            ) == (if e.1.spoke_value@ != hub_value {
                differing(on_cell(p, key, n), hub_value).push(e)
            } else {
                differing(on_cell(p, key, n), hub_value)
            }),
{
    assert forall|n: Seq<char>| #[trigger]
        on_cell(p.push(e), key, n) == (if e.1.hub_key@ == key && e.0 == n {
            on_cell(p, key, n).push(e)
        } else {
            on_cell(p, key, n)
        }) by {
        filter_push(p, e, of_cell(key, n));
    }
    assert forall|n: Seq<char>| e.1.hub_key@ == key && e.0 == n implies #[trigger] differing(
        on_cell(p.push(e), key, n),
        hub_value,
    ) == (if e.1.spoke_value@ != hub_value {
        differing(on_cell(p, key, n), hub_value).push(e)
    } else {
        differing(on_cell(p, key, n), hub_value)
    }) by {
        filter_push(on_cell(p, key, n), e, overrides(hub_value));
    }
}

/// A cell that shows a differing match says so.
proof fn shown_differs(f: Seq<Fed>, hub_value: Seq<char>)
    requires
        f.len() > 0,
    ensures
        (shown(f, hub_value).1.spoke_value@ != hub_value) == (differing(f, hub_value).len() > 0),
{
    let pred = overrides(hub_value);
    filtered(f, pred);
    if differing(f, hub_value).len() > 0 {
        assert(pred(f.filter(pred)[0]));
    } else if pred(f[0]) {
        assert(f.filter(pred).contains(f[0]));
    }
}

/// Takes one more match of the row's key into the row.
fn take_match(r: &mut Row, ambiguous: &mut bool, spoke: &str, m: &MatchInput, Ghost(p): Ghost<Seq<Fed>>)
    requires
        m.hub_key@ == old(r).hub_key@,
        row_so_far(*old(r), *old(ambiguous), p, old(r).hub_key@, old(r).hub_value@),
    ensures
        row_so_far(
            *final(r),
            *final(ambiguous),
            p.push((spoke@, *m)),
            old(r).hub_key@,
            old(r).hub_value@,
        ),
{
    let ghost key = r.hub_key@;
    let ghost hub_value = r.hub_value@;
    let ghost e: Fed = (spoke@, *m);
    let ghost files = files_of(p, key);
    proof {
        files_step(p, e, key);
        cell_step(p, e, key, hub_value);
    }
    // The first known file is adopted; a second, different one clears it for good.
    if m.file.as_str().is_empty() || *ambiguous {
        proof {
            if m.file@.len() > 0 {
                let now = files.push(m.file@);
                let a = choose|a: int| 0 <= a < files.len() && #[trigger] files[a] != files[0];
                assert(now[a] != now[0]);
            }
        }
    } else if r.file.as_str().is_empty() {
        proof {
            if files.len() > 0 {
                assert(files[0].len() > 0);
                assert(forall|i: int| 0 <= i < files.len() ==> #[trigger] files[i] == files[0]);
            }
            assert(files.push(m.file@)[0] == m.file@);
        }
        r.file = m.file.clone();
    } else {
        let agree = same(r.file.as_str(), m.file.as_str());
        proof {
            assert(files.len() > 0);
            let now = files.push(m.file@);
            assert(now[0] == files[0]);
            assert(now[files.len() as int] == m.file@);
            assert forall|i: int| 0 <= i < files.len() implies #[trigger] now[i] == files[i] by {}
        }
        if !agree {
            r.file = String::new();
            *ambiguous = true;
        }
    }
    let differs = !same(r.hub_value.as_str(), m.spoke_value.as_str());
    // A restatement of the hub's value never takes the place of a real override.
    let ghost seen = on_cell(p, key, spoke@);
    let put = match r.cells.get(spoke) {
        None => true,
        Some(c) => differs && !c.differs,
    };
    proof {
        if seen.len() > 0 {
            shown_differs(seen, hub_value);
        } else {
            assert(seen =~= Seq::empty());
            reveal(Seq::filter);
        }
        assert(on_cell(p.push(e), key, spoke@) == seen.push(e));
    }
    if put {
        let cell = Cell {
            value: m.spoke_value.clone(),
            spoke_key: m.spoke_key.clone(),
            confidence: m.confidence.clone(),
            provenance: m.provenance,
            differs,
        };
        r.cells.insert(spoke, cell);
    }
    proof {
        assert(seen.push(e)[0] == (if seen.len() > 0 { seen[0] } else { e }));
    }
}

/// The row of hub key `key`.
fn row_for(key: &str, hub_values: &NameMap<String>, spokes: &Vec<SpokeInput>) -> (r: Row)
    ensures
        r.hub_key@ == key@,
        row_is(r, fed(spokes@), hub_values@),
{
    let hub_value = match hub_values.get(key) {
        Some(v) => v.clone(),
        None => String::new(),
    };
    let mut r = Row {
        hub_key: key.to_owned(),
        file: String::new(),
        hub_value,
        cells: NameMap::new(),
    };
    let mut ambiguous = false;
    let ghost value = r.hub_value@;
    proof {
        reveal(Seq::filter);
        assert(files_of(Seq::empty(), key@) =~= Seq::empty());
    }
    let mut i: usize = 0;
    while i < spokes.len()
        invariant
            i <= spokes@.len(),
            row_so_far(r, ambiguous, fed(spokes@.take(i as int)), key@, value),
        decreases spokes@.len() - i,
    {
        let ghost sp = spokes@;
        proof {
            fed_start(sp, i as int);
        }
        let mut j: usize = 0;
        while j < spokes[i].matches.len()
            invariant
                sp == spokes@,
                i < sp.len(),
                j <= sp[i as int].matches@.len(),
                row_so_far(r, ambiguous, fed_upto(sp, i as int, j as int), key@, value),
            decreases sp[i as int].matches@.len() - j,
        {
            let ghost p = fed_upto(sp, i as int, j as int);
            let ghost e: Fed = (sp[i as int].name@, sp[i as int].matches@[j as int]);
            proof {
                fed_step(sp, i as int, j as int);
            }
            let m = &spokes[i].matches[j];
            if same(m.hub_key.as_str(), key) {
                take_match(&mut r, &mut ambiguous, spokes[i].name.as_str(), m, Ghost(p));
            } else {
                proof {
                    files_step(p, e, key@);
                    cell_step(p, e, key@, value);
                    assert forall|n: Seq<char>| #[trigger]
                        r.cells@.contains_key(n) <==> on_cell(p.push(e), key@, n).len() > 0 by {
                        assert(on_cell(p.push(e), key@, n) == on_cell(p, key@, n));
                    }
                    assert forall|n: Seq<char>| #[trigger] r.cells@.contains_key(n) implies shows(
                        r.cells@[n],
                        shown(on_cell(p.push(e), key@, n), value),
                        value,
                    ) by {
                        assert(on_cell(p.push(e), key@, n) == on_cell(p, key@, n));
                    }
                }
            }
            j = j + 1;
        }
        proof {
            fed_end(sp, i as int);
        }
        i = i + 1;
    }
    assert(spokes@.take(spokes@.len() as int) =~= spokes@);
    r
}

/// One spoke's cell for a drifting key, from its distinct non-empty values.
fn drift_cell(values: &Vec<String>) -> (c: DriftCell)
    ensures
        c.value@ == join_of(views(values@), " | "@),
        c.conflict == (values@.len() > 1),
{
    DriftCell { value: join(values, " | "), conflict: values.len() > 1 }
}

/// What is known of the values gathered for a drifting key after the orphans `p`.
spec fn gathered(g: NameMap<Vec<String>>, p: Seq<Stray>, key: Seq<char>) -> bool {
    &&& forall|n: Seq<char>| #[trigger] g@.contains_key(n) <==> sets(p, key, n)
    &&& forall|n: Seq<char>| #[trigger]
        g@.contains_key(n) ==> lists(views(g@[n]@), stray_values(p, key, n))
}

proof fn stray_push(p: Seq<Stray>, e: Stray, key: Seq<char>)
    ensures
        forall|n: Seq<char>| #[trigger]
            sets(p.push(e), key, n) <==> sets(p, key, n) || (e.1.0@ == key && e.0 == n),
        forall|n: Seq<char>| #[trigger]
            stray_values(p.push(e), key, n) == (if e.1.0@ == key && e.0 == n && e.1.1@.len() > 0 {
                stray_values(p, key, n).insert(e.1.1@)
            } else {
                stray_values(p, key, n)
            }),
{
    let q = p.push(e);
    assert(q[p.len() as int] == e);
    assert forall|n: Seq<char>| #[trigger]
        sets(q, key, n) <==> sets(p, key, n) || (e.1.0@ == key && e.0 == n) by {
        if sets(p, key, n) {
            let a = choose|a: int| 0 <= a < p.len() && #[trigger] p[a].1.0@ == key && p[a].0 == n;
            assert(q[a].1.0@ == key);
        }
        if sets(q, key, n) {
            let a = choose|a: int| 0 <= a < q.len() && #[trigger] q[a].1.0@ == key && q[a].0 == n;
            if a < p.len() {
                assert(p[a].1.0@ == key);
            }
        }
        if e.1.0@ == key && e.0 == n {
            assert(q[p.len() as int].1.0@ == key);
        }
    }
    assert forall|n: Seq<char>| #[trigger]
        stray_values(q, key, n) == (if e.1.0@ == key && e.0 == n && e.1.1@.len() > 0 {
            stray_values(p, key, n).insert(e.1.1@)
        } else {
            stray_values(p, key, n)
        }) by {
        let was = stray_values(p, key, n);
        let adds = e.1.0@ == key && e.0 == n && e.1.1@.len() > 0;
        assert forall|v: Seq<char>| stray_values(q, key, n).contains(v) <==> was.contains(v) || (
        adds && v == e.1.1@) by {
            if was.contains(v) {
                let a = choose|a: int|
                    #![trigger p[a]]
                    0 <= a < p.len() && p[a].0 == n && p[a].1.0@ == key && p[a].1.1@ == v;
                assert(q[a] == p[a]);
            }
            if stray_values(q, key, n).contains(v) {
                let a = choose|a: int|
                    #![trigger q[a]]
                    0 <= a < q.len() && q[a].0 == n && q[a].1.0@ == key && q[a].1.1@ == v;
                if a < p.len() {
                    assert(p[a] == q[a]);
                }
            }
        }
        if adds {
            assert(stray_values(q, key, n) =~= was.insert(e.1.1@));
        } else {
            assert(stray_values(q, key, n) =~= was);
        }
    }
}

/// The drift row of `key`.
fn drift_for(key: &str, spokes: &Vec<SpokeInput>) -> (d: Drift)
    ensures
        d.key@ == key@,
        drift_is(d, strays(spokes@)),
{
    let mut g: NameMap<Vec<String>> = NameMap::new();
    let mut i: usize = 0;
    while i < spokes.len()
        invariant
            i <= spokes@.len(),
            gathered(g, strays(spokes@.take(i as int)), key@),
        decreases spokes@.len() - i,
    {
        let ghost sp = spokes@;
        proof {
            fed_start(sp, i as int);
        }
        let mut j: usize = 0;
        while j < spokes[i].orphans.len()
            invariant
                sp == spokes@,
                i < sp.len(),
                j <= sp[i as int].orphans@.len(),
                gathered(g, strays_upto(sp, i as int, j as int), key@),
            decreases sp[i as int].orphans@.len() - j,
        {
            let ghost p = strays_upto(sp, i as int, j as int);
            let ghost e: Stray = (sp[i as int].name@, sp[i as int].orphans@[j as int]);
            proof {
                stray_step(sp, i as int, j as int);
                stray_push(p, e, key@);
            }
            let o = &spokes[i].orphans[j];
            if same(o.0.as_str(), key) {
                let name = spokes[i].name.as_str();
                let mut vals: Vec<String> = match g.get(name) {
                    Some(v) => copy_all(v),
                    None => Vec::new(),
                };
                proof {
                    if !g@.contains_key(name@) {
                        assert forall|v: Seq<char>| !stray_values(p, key@, name@).contains(v) by {
                            if stray_values(p, key@, name@).contains(v) {
                                let a = choose|a: int|
                                    #![trigger p[a]]
                                    0 <= a < p.len() && p[a].0 == name@ && p[a].1.0@ == key@
                                        && p[a].1.1@ == v;
                                assert(p[a].1.0@ == key@);
                            }
                        }
                    }
                    assert(lists(views(vals@), stray_values(p, key@, name@)));
                }
                if !o.1.as_str().is_empty() {
                    insert_name(&mut vals, o.1.as_str());
                }
                g.insert(name, vals);
            }
            j = j + 1;
        }
        proof {
            fed_end(sp, i as int);
        }
        i = i + 1;
    }
    assert(spokes@.take(spokes@.len() as int) =~= spokes@);
    let mut cells: NameMap<DriftCell> = NameMap::new();
    let ghost o = strays(spokes@);
    g.look();
    let n: usize = g.len();
    let mut k: usize = 0;
    while k < n
        invariant
            k <= n,
            n == g.names().len(),
            map_facts(g),
            gathered(g, o, key@),
            forall|q: Seq<char>| #[trigger]
                cells@.contains_key(q) <==> g.names().take(k as int).contains(q),
            forall|q: Seq<char>| #[trigger]
                cells@.contains_key(q) ==> drift_shows(cells@[q], stray_values(o, key@, q)),
        decreases n - k,
    {
        let name = g.name_at(k);
        let vals = g.val_at(k);
        let cell = drift_cell(vals);
        proof {
            assert(g.names().contains(g.names()[k as int]));
            assert(g@.contains_key(name@));
            assert(g@[name@] == *vals);
            assert(lists(views(vals@), stray_values(o, key@, name@)));
            assert(drift_shows(cell, stray_values(o, key@, name@)));
            let was = g.names().take(k as int);
            let now = g.names().take(k + 1);
            assert(now =~= was.push(name@));
            assert forall|q: Seq<char>| #[trigger] now.contains(q) <==> was.contains(q) || q
                == name@ by {
                if was.contains(q) {
                    let a = choose|a: int| 0 <= a < was.len() && was[a] == q;
                    assert(now[a] == q);
                }
                assert(now[k as int] == name@);
            }
        }
        cells.insert(name.as_str(), cell);
        k = k + 1;
    }
    assert(g.names().take(n as int) =~= g.names());
    Drift { key: key.to_owned(), cells }
}

/// Assembles the matrix from each spoke's matches and orphans. `hub_values`
/// maps a hub key to its value, by which real overrides are told from
/// restatements.
pub fn build(
    hub: &str,
    hub_values: &NameMap<String>,
    spokes: Vec<SpokeInput>,
    pinned: bool,
) -> (m: OverrideMatrix)
    ensures
        matrix_is(m, hub@, hub_values@, spokes@, pinned),
{
    let keys = keys_matched(&spokes);
    let mut rows: Vec<Row> = Vec::new();
    let mut i: usize = 0;
    while i < keys.len()
        invariant
            i <= keys@.len(),
            row_keys(rows@) == views(keys@).take(i as int),
            forall|k: int|
                0 <= k < rows@.len() ==> row_is(#[trigger] rows@[k], fed(spokes@), hub_values@),
        decreases keys@.len() - i,
    {
        let r = row_for(keys[i].as_str(), hub_values, &spokes);
        let ghost was = rows@;
        rows.push(r);
        i = i + 1;
        assert(row_keys(rows@) =~= row_keys(was).push(r.hub_key@));
        assert(row_keys(rows@) =~= views(keys@).take(i as int));
    }
    assert(views(keys@).take(keys@.len() as int) =~= views(keys@));
    let strays_sorted = keys_stray(&spokes);
    let mut drift: Vec<Drift> = Vec::new();
    let mut j: usize = 0;
    while j < strays_sorted.len()
        invariant
            j <= strays_sorted@.len(),
            drift_keys(drift@) == views(strays_sorted@).take(j as int),
            forall|k: int| 0 <= k < drift@.len() ==> drift_is(#[trigger] drift@[k], strays(spokes@)),
        decreases strays_sorted@.len() - j,
    {
        let d = drift_for(strays_sorted[j].as_str(), &spokes);
        let ghost was = drift@;
        drift.push(d);
        j = j + 1;
        assert(drift_keys(drift@) =~= drift_keys(was).push(d.key@));
        assert(drift_keys(drift@) =~= views(strays_sorted@).take(j as int));
    }
    assert(views(strays_sorted@).take(strays_sorted@.len() as int) =~= views(strays_sorted@));
    OverrideMatrix {
        hub: hub.to_owned(),
        pinned,
        pins: pins(&spokes),
        spokes: columns(&spokes),
        rows,
        drift,
    }
}


// ---------------------------------------------------------------------------
// Revisions
// ---------------------------------------------------------------------------

/// An ASCII hexadecimal digit.
pub open spec fn is_hex(c: char) -> bool {
    ('0' <= c && c <= '9') || ('a' <= c && c <= 'f') || ('A' <= c && c <= 'F')
}

/// A full commit sha: 40 hexadecimal digits.
pub open spec fn is_sha(rev: Seq<char>) -> bool {
    rev.len() == 40 && forall|i: int| 0 <= i < rev.len() ==> is_hex(#[trigger] rev[i])
}

/// A revision as it is shown: a sha's first 10 digits, any other rev as it is.
pub open spec fn short_rev_of(rev: Seq<char>) -> Seq<char> {
    if is_sha(rev) {
        rev.subrange(0, 10)
    } else {
        rev
    }
}

/// Abbreviates a 40-digit commit sha to 10 characters; leaves other refs as
/// they are.
pub fn short_rev(rev: &str) -> (r: &str)
    ensures
        r@ == short_rev_of(rev@),
{
    let v = crate::text::chars_of(rev);
    if v.len() != 40 {
        return rev;
    }
    let mut i: usize = 0;
    while i < v.len()
        invariant
            i <= v@.len(),
            v@ == rev@,
            v@.len() == 40,
            forall|j: int| 0 <= j < i ==> is_hex(#[trigger] rev@[j]),
        decreases v@.len() - i,
    {
        let c = v[i];
        let hex = ('0' <= c && c <= '9') || ('a' <= c && c <= 'f') || ('A' <= c && c <= 'F');
        if !hex {
            assert(!is_hex(rev@[i as int]));
            return rev;
        }
        i = i + 1;
    }
    rev.substring_char(0, 10)
}

// ---------------------------------------------------------------------------
// The text table
// ---------------------------------------------------------------------------

/// Whether the matrix has nothing to show.
pub fn is_empty(m: &OverrideMatrix) -> (r: bool)
    ensures
        r == (m.rows@.len() == 0 && m.drift@.len() == 0),
{
    m.rows.len() == 0 && m.drift.len() == 0
}

/// The line that says which hub version a spoke was measured against.
pub open spec fn pin_line(pins: Map<Seq<char>, SpokePin>) -> spec_fn(Seq<char>) -> Seq<char> {
    |spoke: Seq<char>|
        if pins.contains_key(spoke) {
            "    "@ + spoke + " @ "@ + short_rev_of(pins[spoke].rev@) + via_note(pins[spoke].via)
                + "\n"@
        } else {
            "    "@ + spoke + " @ HEAD (no pin detected)\n"@
        }
}

/// Where a pin was detected, when known.
pub open spec fn via_note(via: Option<String>) -> Seq<char> {
    match via {
        Some(v) => " (via "@ + v@ + ")"@,
        None => Seq::empty(),
    }
}

/// The pin section, present only where pins were asked for.
pub open spec fn pins_text(m: OverrideMatrix) -> Seq<char> {
    if m.pinned {
        "  resolved per spoke against the hub version each pins ("@ + decimal_of(m.pins@.dom().len())
            + " of "@ + decimal_of(m.spokes@.len()) + " pinned one):\n"@ + over(
            views(m.spokes@),
            pin_line(m.pins@),
        )
    } else {
        Seq::empty()
    }
}

/// The line of one spoke's cell, if it has one.
pub open spec fn cell_line(cells: Map<Seq<char>, Cell>) -> spec_fn(Seq<char>) -> Seq<char> {
    |spoke: Seq<char>|
        if cells.contains_key(spoke) {
            "    "@ + (if cells[spoke].differs {
                "≠"@
            } else {
                "="@
            }) + " "@ + spoke + ": "@ + cells[spoke].value@ + " ("@ + cells[spoke].confidence.shown@
                + ")\n"@
        } else {
            Seq::empty()
        }
}

/// One row of the text table.
pub open spec fn row_text(spokes: Seq<Seq<char>>) -> spec_fn(Row) -> Seq<char> {
    |r: Row|
        "\n  "@ + r.hub_key@ + " = "@ + r.hub_value@ + "\n"@ + over(spokes, cell_line(r.cells@))
}

/// The line of one spoke's setting of a drifting key.
pub open spec fn drift_line() -> spec_fn((Seq<char>, DriftCell)) -> Seq<char> {
    |e: (Seq<char>, DriftCell)|
        "      "@ + e.0 + ": "@ + e.1.value@ + (if e.1.conflict {
            "  (conflict)"@
        } else {
            ""@
        }) + "\n"@
}

/// One drift row of the text table.
pub open spec fn drift_row_text() -> spec_fn(Drift) -> Seq<char> {
    |d: Drift| "\n    "@ + d.key@ + "\n"@ + over(d.cells.pairs(), drift_line())
}

/// The drift section, present only where something drifts.
pub open spec fn drift_text(drift: Seq<Drift>) -> Seq<char> {
    if drift.len() > 0 {
        "\n  drift — "@ + decimal_of(drift.len()) + " orphan key(s):\n"@ + over(
            drift,
            drift_row_text(),
        )
    } else {
        Seq::empty()
    }
}

/// The matrix as a plain-text table.
pub open spec fn text_of(m: OverrideMatrix) -> Seq<char> {
    "cross-repo config overrides (hub: "@ + m.hub@ + ", "@ + decimal_of(m.spokes@.len())
        + " spoke(s))\n"@ + pins_text(m) + over(m.rows@, row_text(views(m.spokes@))) + drift_text(
        m.drift@,
    )
}

fn write_pin_line(m: &OverrideMatrix, spoke: &str) -> (s: String)
    ensures
        s@ == pin_line(m.pins@)(spoke@),
{
    let mut s = "    ".to_owned();
    s.append(spoke);
    match m.pins.get(spoke) {
        Some(p) => {
            s.append(" @ ");
            s.append(short_rev(p.rev.as_str()));
            match &p.via {
                Some(v) => {
                    let mut note = " (via ".to_owned();
                    note.append(v.as_str());
                    note.append(")");
                    s.append(note.as_str());
                },
                None => {
                    s.append(String::new().as_str());
                },
            }
            s.append("\n");
        },
        None => {
            s.append(" @ HEAD (no pin detected)\n");
        },
    }
    s
}

fn write_pins(m: &OverrideMatrix) -> (s: String)
    ensures
        s@ == pins_text(*m),
{
    if !m.pinned {
        return String::new();
    }
    let mut lines = String::new();
    let mut i: usize = 0;
    while i < m.spokes.len()
        invariant
            i <= m.spokes@.len(),
            lines@ == over(views(m.spokes@).take(i as int), pin_line(m.pins@)),
        decreases m.spokes@.len() - i,
    {
        proof {
            over_step(views(m.spokes@), pin_line(m.pins@), i as int);
        }
        let line = write_pin_line(m, m.spokes[i].as_str());
        lines.append(line.as_str());
        i = i + 1;
    }
    assert(views(m.spokes@).take(m.spokes@.len() as int) =~= views(m.spokes@));
    let mut s = "  resolved per spoke against the hub version each pins (".to_owned();
    s.append(decimal(m.pins.len()).as_str());
    s.append(" of ");
    s.append(decimal(m.spokes.len()).as_str());
    s.append(" pinned one):\n");
    s.append(lines.as_str());
    s
}

fn write_cell_line(cells: &NameMap<Cell>, spoke: &str) -> (s: String)
    ensures
        s@ == cell_line(cells@)(spoke@),
{
    match cells.get(spoke) {
        Some(c) => {
            let mut s = "    ".to_owned();
            s.append(if c.differs { "≠" } else { "=" });
            s.append(" ");
            s.append(spoke);
            s.append(": ");
            s.append(c.value.as_str());
            s.append(" (");
            s.append(c.confidence.shown.as_str());
            s.append(")\n");
            s
        },
        None => String::new(),
    }
}

fn write_row(r: &Row, spokes: &Vec<String>) -> (s: String)
    ensures
        s@ == row_text(views(spokes@))(*r),
{
    let mut lines = String::new();
    let mut i: usize = 0;
    while i < spokes.len()
        invariant
            i <= spokes@.len(),
            lines@ == over(views(spokes@).take(i as int), cell_line(r.cells@)),
        decreases spokes@.len() - i,
    {
        proof {
            over_step(views(spokes@), cell_line(r.cells@), i as int);
        }
        let line = write_cell_line(&r.cells, spokes[i].as_str());
        lines.append(line.as_str());
        i = i + 1;
    }
    assert(views(spokes@).take(spokes@.len() as int) =~= views(spokes@));
    let mut s = "\n  ".to_owned();
    s.append(r.hub_key.as_str());
    s.append(" = ");
    s.append(r.hub_value.as_str());
    s.append("\n");
    s.append(lines.as_str());
    s
}

fn write_drift_row(d: &Drift) -> (s: String)
    ensures
        s@ == drift_row_text()(*d),
{
    let mut lines = String::new();
    let n: usize = d.cells.len();
    let mut i: usize = 0;
    while i < n
        invariant
            i <= n,
            n == d.cells.names().len(),
            lines@ == over(d.cells.pairs().take(i as int), drift_line()),
        decreases n - i,
    {
        proof {
            over_step(d.cells.pairs(), drift_line(), i as int);
        }
        let c = d.cells.val_at(i);
        let mut line = "      ".to_owned();
        line.append(d.cells.name_at(i).as_str());
        line.append(": ");
        line.append(c.value.as_str());
        line.append(if c.conflict { "  (conflict)" } else { "" });
        line.append("\n");
        lines.append(line.as_str());
        i = i + 1;
    }
    assert(d.cells.pairs().take(n as int) =~= d.cells.pairs());
    let mut s = "\n    ".to_owned();
    s.append(d.key.as_str());
    s.append("\n");
    s.append(lines.as_str());
    s
}

fn write_drift(drift: &Vec<Drift>) -> (s: String)
    ensures
        s@ == drift_text(drift@),
{
    if drift.len() == 0 {
        return String::new();
    }
    let mut lines = String::new();
    let mut i: usize = 0;
    while i < drift.len()
        invariant
            i <= drift@.len(),
            lines@ == over(drift@.take(i as int), drift_row_text()),
        decreases drift@.len() - i,
    {
        proof {
            over_step(drift@, drift_row_text(), i as int);
        }
        let row = write_drift_row(&drift[i]);
        lines.append(row.as_str());
        i = i + 1;
    }
    assert(drift@.take(drift@.len() as int) =~= drift@);
    let mut s = "\n  drift — ".to_owned();
    s.append(decimal(drift.len()).as_str());
    s.append(" orphan key(s):\n");
    s.append(lines.as_str());
    s
}

/// Renders the matrix as a plain-text table for the terminal.
pub fn render_text(m: &OverrideMatrix) -> (s: String)
    ensures
        s@ == text_of(*m),
{
    let mut rows = String::new();
    let mut i: usize = 0;
    while i < m.rows.len()
        invariant
            i <= m.rows@.len(),
            rows@ == over(m.rows@.take(i as int), row_text(views(m.spokes@))),
        decreases m.rows@.len() - i,
    {
        proof {
            over_step(m.rows@, row_text(views(m.spokes@)), i as int);
        }
        let row = write_row(&m.rows[i], &m.spokes);
        rows.append(row.as_str());
        i = i + 1;
    }
    assert(m.rows@.take(m.rows@.len() as int) =~= m.rows@);
    let mut s = "cross-repo config overrides (hub: ".to_owned();
    s.append(m.hub.as_str());
    s.append(", ");
    s.append(decimal(m.spokes.len()).as_str());
    s.append(" spoke(s))\n");
    s.append(write_pins(m).as_str());
    s.append(rows.as_str());
    s.append(write_drift(&m.drift).as_str());
    s
}

// ---------------------------------------------------------------------------
// The HTML page
// ---------------------------------------------------------------------------

/// Writes text for HTML body or attribute content.
pub fn esc(s: &str) -> (r: String)
    ensures
        r@ == escaped(s@),
{
    escape_html(s)
}

/// The mark of the hub version that a spoke's column was measured against;
/// empty unless pins were asked for.
pub open spec fn pin_label_of(m: OverrideMatrix, spoke: Seq<char>) -> Seq<char> {
    if !m.pinned {
        Seq::empty()
    } else if m.pins@.contains_key(spoke) {
        "<span class=\"pin\" title=\""@ + escaped(
            match m.pins@[spoke].via {
                Some(v) => v@,
                None => "pinned by this spoke"@,
            },
        ) + "\">@ "@ + escaped(short_rev_of(m.pins@[spoke].rev@)) + "</span>"@
    } else {
        "<span class=\"pin unpinned\">@ HEAD (no pin)</span>"@
    }
}

/// The header of one spoke's column.
pub open spec fn head_cell(m: OverrideMatrix) -> spec_fn(Seq<char>) -> Seq<char> {
    |s: Seq<char>| "<th scope=\"col\">"@ + escaped(s) + pin_label_of(m, s) + "</th>"@
}

/// The table's header row.
pub open spec fn head_row(m: OverrideMatrix) -> Seq<char> {
    "<th scope=\"col\">config key</th><th scope=\"col\">hub</th>"@ + over(
        views(m.spokes@),
        head_cell(m),
    )
}

/// One spoke's cell of a row.
pub open spec fn body_cell(cells: Map<Seq<char>, Cell>) -> spec_fn(Seq<char>) -> Seq<char> {
    |s: Seq<char>|
        if cells.contains_key(s) {
            "<td class=\""@ + (if cells[s].differs {
                "cell over"@
            } else {
                "cell same"@
            }) + "\"><code>"@ + escaped(cells[s].value@)
                + "</code><span class=\"conf\" title=\"confidence\">"@ + escaped(
                cells[s].confidence.shown@,
            ) + "</span></td>"@
        } else {
            "<td class=\"cell none\">·</td>"@
        }
}

/// One row of the table.
pub open spec fn body_row(spokes: Seq<Seq<char>>) -> spec_fn(Row) -> Seq<char> {
    |r: Row|
        "<tr><th scope=\"row\"><code>"@ + escaped(r.hub_key@)
            + "</code></th><td class=\"hub\"><code>"@ + escaped(r.hub_value@) + "</code></td>"@ + over(
            spokes,
            body_cell(r.cells@),
        ) + "</tr>"@
}

/// The header of one spoke's drift column.
pub open spec fn drift_head_cell() -> spec_fn(Seq<char>) -> Seq<char> {
    |s: Seq<char>| "<th scope=\"col\">"@ + escaped(s) + "</th>"@
}

/// One spoke's cell of a drift row.
pub open spec fn drift_body_cell(cells: Map<Seq<char>, DriftCell>) -> spec_fn(Seq<char>) -> Seq<
    char,
> {
    |s: Seq<char>|
        if cells.contains_key(s) {
            if cells[s].conflict {
                "<td class=\"cell over conflict\" title=\"conflict: this deploy sets the key to multiple values\"><code>"@
                    + escaped(cells[s].value@) + "</code></td>"@
            } else {
                "<td class=\"cell over\"><code>"@ + escaped(cells[s].value@) + "</code></td>"@
            }
        } else {
            "<td class=\"cell none\">·</td>"@
        }
}

/// One drift row of the table.
pub open spec fn drift_body_row(spokes: Seq<Seq<char>>) -> spec_fn(Drift) -> Seq<char> {
    |d: Drift|
        "<tr><td><code>"@ + escaped(d.key@) + "</code></td>"@ + over(
            spokes,
            drift_body_cell(d.cells@),
        ) + "</tr>"@
}

/// What follows the number of drifting keys, up to the drift table's header.
pub const DRIFT_INTRO: &'static str = " orphan key(s)</h2>\
<p class=\"muted\">Spoke keys with no hub counterpart: the app doesn't \
define these, so a rename or removal in the hub can't warn you.</p>\
<table class=\"drift\"><thead><tr>";

/// What follows the table's rows: how to read its colours.
pub const LEGEND: &'static str = "</tbody></table>\
<p class=\"legend\"><span class=\"swatch over\"></span> overrides the hub value \
&nbsp; <span class=\"swatch same\"></span> matches it (redundant) \
&nbsp; <span class=\"swatch none\"></span> not set</p>";

/// The page up to the hub's name in its title.
pub const PAGE_OPEN: &'static str = "<!doctype html><html lang=\"en\"><head><meta charset=\"utf-8\">\
<meta name=\"viewport\" content=\"width=device-width, initial-scale=1\">\
<title>Cross-repo config overrides — ";

/// The page from the end of its style to the hub's name.
pub const PAGE_MAIN: &'static str = "</style></head><body>\
<main><h1>Cross-repo config overrides</h1>\
<p class=\"muted\">Hub <strong>";

/// The drift table, present only where something drifts.
pub open spec fn drift_table(m: OverrideMatrix) -> Seq<char> {
    if m.drift@.len() == 0 {
        Seq::empty()
    } else {
        "<h2>Drift — "@ + decimal_of(m.drift@.len()) + DRIFT_INTRO@ + (
        "<th scope=\"col\">key</th>"@ + over(views(m.spokes@), drift_head_cell()))
            + "</tr></thead><tbody>"@ + over(m.drift@, drift_body_row(views(m.spokes@)))
            + "</tbody></table>"@
    }
}

/// The body of the page.
pub open spec fn page_body(m: OverrideMatrix) -> Seq<char> {
    if m.rows@.len() == 0 && m.drift@.len() == 0 {
        "<p class=\"muted\">No cross-repo config overrides or drift found.</p>"@
    } else {
        "<table class=\"matrix\"><thead><tr>"@ + head_row(m) + "</tr></thead><tbody>"@ + over(
            m.rows@,
            body_row(views(m.spokes@)),
        ) + LEGEND@ + drift_table(m)
    }
}

/// The matrix as a self-contained HTML page.
pub open spec fn html_of(m: OverrideMatrix) -> Seq<char> {
    PAGE_OPEN@ + escaped(m.hub@) + "</title><style>"@ + CSS@ + PAGE_MAIN@ + escaped(m.hub@)
        + "</strong> · "@ + decimal_of(m.spokes@.len()) + " spoke(s) · ADR-0009</p>"@ + page_body(m)
        + "</main></body></html>"@
}

fn pin_label(m: &OverrideMatrix, spoke: &str) -> (s: String)
    ensures
        s@ == pin_label_of(*m, spoke@),
{
    if !m.pinned {
        return String::new();
    }
    match m.pins.get(spoke) {
        Some(p) => {
            let title = match &p.via {
                Some(v) => esc(v.as_str()),
                None => esc("pinned by this spoke"),
            };
            let mut s = "<span class=\"pin\" title=\"".to_owned();
            s.append(title.as_str());
            s.append("\">@ ");
            s.append(esc(short_rev(p.rev.as_str())).as_str());
            s.append("</span>");
            s
        },
        None => "<span class=\"pin unpinned\">@ HEAD (no pin)</span>".to_owned(),
    }
}

fn html_head_row(m: &OverrideMatrix) -> (s: String)
    ensures
        s@ == head_row(*m),
{
    let mut cols = String::new();
    let mut i: usize = 0;
    while i < m.spokes.len()
        invariant
            i <= m.spokes@.len(),
            cols@ == over(views(m.spokes@).take(i as int), head_cell(*m)),
        decreases m.spokes@.len() - i,
    {
        proof {
            over_step(views(m.spokes@), head_cell(*m), i as int);
        }
        let name = m.spokes[i].as_str();
        let mut th = "<th scope=\"col\">".to_owned();
        th.append(esc(name).as_str());
        th.append(pin_label(m, name).as_str());
        th.append("</th>");
        cols.append(th.as_str());
        i = i + 1;
    }
    assert(views(m.spokes@).take(m.spokes@.len() as int) =~= views(m.spokes@));
    let mut s = "<th scope=\"col\">config key</th><th scope=\"col\">hub</th>".to_owned();
    s.append(cols.as_str());
    s
}

fn html_cell(cells: &NameMap<Cell>, spoke: &str) -> (s: String)
    ensures
        s@ == body_cell(cells@)(spoke@),
{
    match cells.get(spoke) {
        Some(c) => {
            let mut s = "<td class=\"".to_owned();
            s.append(if c.differs { "cell over" } else { "cell same" });
            s.append("\"><code>");
            s.append(esc(c.value.as_str()).as_str());
            s.append("</code><span class=\"conf\" title=\"confidence\">");
            s.append(esc(c.confidence.shown.as_str()).as_str());
            s.append("</span></td>");
            s
        },
        None => "<td class=\"cell none\">·</td>".to_owned(),
    }
}

fn html_row(r: &Row, spokes: &Vec<String>) -> (s: String)
    ensures
        s@ == body_row(views(spokes@))(*r),
{
    let mut cells = String::new();
    let mut i: usize = 0;
    while i < spokes.len()
        invariant
            i <= spokes@.len(),
            cells@ == over(views(spokes@).take(i as int), body_cell(r.cells@)),
        decreases spokes@.len() - i,
    {
        proof {
            over_step(views(spokes@), body_cell(r.cells@), i as int);
        }
        let cell = html_cell(&r.cells, spokes[i].as_str());
        cells.append(cell.as_str());
        i = i + 1;
    }
    assert(views(spokes@).take(spokes@.len() as int) =~= views(spokes@));
    let mut s = "<tr><th scope=\"row\"><code>".to_owned();
    s.append(esc(r.hub_key.as_str()).as_str());
    s.append("</code></th><td class=\"hub\"><code>");
    s.append(esc(r.hub_value.as_str()).as_str());
    s.append("</code></td>");
    s.append(cells.as_str());
    s.append("</tr>");
    s
}

fn html_drift_cell(cells: &NameMap<DriftCell>, spoke: &str) -> (s: String)
    ensures
        s@ == drift_body_cell(cells@)(spoke@),
{
    match cells.get(spoke) {
        Some(c) => {
            let mut s = if c.conflict {
                "<td class=\"cell over conflict\" title=\"conflict: this deploy sets the key to multiple values\"><code>".to_owned()
            } else {
                "<td class=\"cell over\"><code>".to_owned()
            };
            s.append(esc(c.value.as_str()).as_str());
            s.append("</code></td>");
            s
        },
        None => "<td class=\"cell none\">·</td>".to_owned(),
    }
}

fn html_drift_row(d: &Drift, spokes: &Vec<String>) -> (s: String)
    ensures
        s@ == drift_body_row(views(spokes@))(*d),
{
    let mut cells = String::new();
    let mut i: usize = 0;
    while i < spokes.len()
        invariant
            i <= spokes@.len(),
            cells@ == over(views(spokes@).take(i as int), drift_body_cell(d.cells@)),
        decreases spokes@.len() - i,
    {
        proof {
            over_step(views(spokes@), drift_body_cell(d.cells@), i as int);
        }
        let cell = html_drift_cell(&d.cells, spokes[i].as_str());
        cells.append(cell.as_str());
        i = i + 1;
    }
    assert(views(spokes@).take(spokes@.len() as int) =~= views(spokes@));
    let mut s = "<tr><td><code>".to_owned();
    s.append(esc(d.key.as_str()).as_str());
    s.append("</code></td>");
    s.append(cells.as_str());
    s.append("</tr>");
    s
}

fn html_drift(m: &OverrideMatrix) -> (s: String)
    ensures
        s@ == drift_table(*m),
{
    if m.drift.len() == 0 {
        return String::new();
    }
    let mut cols = String::new();
    let mut i: usize = 0;
    while i < m.spokes.len()
        invariant
            i <= m.spokes@.len(),
            cols@ == over(views(m.spokes@).take(i as int), drift_head_cell()),
        decreases m.spokes@.len() - i,
    {
        proof {
            over_step(views(m.spokes@), drift_head_cell(), i as int);
        }
        let mut th = "<th scope=\"col\">".to_owned();
        th.append(esc(m.spokes[i].as_str()).as_str());
        th.append("</th>");
        cols.append(th.as_str());
        i = i + 1;
    }
    assert(views(m.spokes@).take(m.spokes@.len() as int) =~= views(m.spokes@));
    let mut dhead = "<th scope=\"col\">key</th>".to_owned();
    dhead.append(cols.as_str());
    let mut rows = String::new();
    let mut j: usize = 0;
    while j < m.drift.len()
        invariant
            j <= m.drift@.len(),
            rows@ == over(m.drift@.take(j as int), drift_body_row(views(m.spokes@))),
        decreases m.drift@.len() - j,
    {
        proof {
            over_step(m.drift@, drift_body_row(views(m.spokes@)), j as int);
        }
        let row = html_drift_row(&m.drift[j], &m.spokes);
        rows.append(row.as_str());
        j = j + 1;
    }
    assert(m.drift@.take(m.drift@.len() as int) =~= m.drift@);
    let mut s = "<h2>Drift — ".to_owned();
    s.append(decimal(m.drift.len()).as_str());
    s.append(DRIFT_INTRO);
    s.append(dhead.as_str());
    s.append("</tr></thead><tbody>");
    s.append(rows.as_str());
    s.append("</tbody></table>");
    s
}

fn html_body(m: &OverrideMatrix) -> (s: String)
    ensures
        s@ == page_body(*m),
{
    if is_empty(m) {
        return "<p class=\"muted\">No cross-repo config overrides or drift found.</p>".to_owned();
    }
    let mut rows = String::new();
    let mut i: usize = 0;
    while i < m.rows.len()
        invariant
            i <= m.rows@.len(),
            rows@ == over(m.rows@.take(i as int), body_row(views(m.spokes@))),
        decreases m.rows@.len() - i,
    {
        proof {
            over_step(m.rows@, body_row(views(m.spokes@)), i as int);
        }
        let row = html_row(&m.rows[i], &m.spokes);
        rows.append(row.as_str());
        i = i + 1;
    }
    assert(m.rows@.take(m.rows@.len() as int) =~= m.rows@);
    let mut s = "<table class=\"matrix\"><thead><tr>".to_owned();
    s.append(html_head_row(m).as_str());
    s.append("</tr></thead><tbody>");
    s.append(rows.as_str());
    s.append(LEGEND);
    s.append(html_drift(m).as_str());
    s
}

/// Renders the matrix as a self-contained HTML page: inline CSS, no external
/// assets.
pub fn render_html(m: &OverrideMatrix) -> (s: String)
    ensures
        s@ == html_of(*m),
{
    let hub = esc(m.hub.as_str());
    let mut s = PAGE_OPEN.to_owned();
    s.append(hub.as_str());
    s.append("</title><style>");
    s.append(CSS);
    s.append(PAGE_MAIN);
    s.append(hub.as_str());
    s.append("</strong> · ");
    s.append(decimal(m.spokes.len()).as_str());
    s.append(" spoke(s) · ADR-0009</p>");
    s.append(html_body(m).as_str());
    s.append("</main></body></html>");
    s
}

/// The page's stylesheet: minimal, theme-aware, self-contained.
pub const CSS: &'static str = "\
:root{--bg:#fff;--fg:#1a1a2e;--muted:#6b7280;--line:#e5e7eb;--hub:#f3f4f6;\
--over:#fef3c7;--over-fg:#92400e;--same:#ecfdf5;--same-fg:#065f46;--accent:#4f46e5}\
@media(prefers-color-scheme:dark){:root{--bg:#0f1117;--fg:#e5e7eb;--muted:#9ca3af;\
--line:#262b36;--hub:#1a1d27;--over:#3b2f10;--over-fg:#fcd34d;--same:#0f2a1f;\
--same-fg:#6ee7b7;--accent:#a5b4fc}}\
*{box-sizing:border-box}body{margin:0;background:var(--bg);color:var(--fg);\
font:15px/1.5 ui-sans-serif,system-ui,-apple-system,Segoe UI,Roboto,sans-serif}\
main{max-width:1100px;margin:0 auto;padding:2rem 1.25rem}\
h1{font-size:1.5rem;margin:0 0 .25rem}h2{font-size:1.15rem;margin:2rem 0 .5rem}\
.muted{color:var(--muted);margin:.25rem 0 1.5rem}\
code{font:13px/1.4 ui-monospace,SFMono-Regular,Menlo,monospace}\
table{border-collapse:collapse;width:100%;overflow-x:auto;display:block}\
@media(min-width:720px){table{display:table}}\
th,td{border:1px solid var(--line);padding:.4rem .6rem;text-align:left;vertical-align:top}\
thead th{position:sticky;top:0;background:var(--bg);font-size:.8rem;\
text-transform:uppercase;letter-spacing:.03em;color:var(--muted)}\
tbody th[scope=row]{background:var(--hub);white-space:nowrap}\
td.hub{background:var(--hub);color:var(--muted)}\
td.cell{white-space:nowrap}td.over{background:var(--over);color:var(--over-fg)}\
td.same{background:var(--same);color:var(--same-fg)}td.none{color:var(--muted);text-align:center}\
.conf{display:inline-block;margin-left:.4rem;font-size:.7rem;opacity:.7;\
font-variant-numeric:tabular-nums}\
.pin{display:block;margin-top:.15rem;font-size:.7rem;text-transform:none;\
letter-spacing:0;font-family:ui-monospace,SFMono-Regular,Menlo,monospace;\
font-weight:400}\
.pin.unpinned{opacity:.55;font-style:italic}\
.legend{color:var(--muted);font-size:.85rem;margin:1rem 0}\
.swatch{display:inline-block;width:.8rem;height:.8rem;border-radius:3px;\
vertical-align:-1px;border:1px solid var(--line)}\
.swatch.over{background:var(--over)}.swatch.same{background:var(--same)}\
.swatch.none{background:var(--bg)}\
table.drift td:first-child{white-space:nowrap;color:var(--muted)}\
td.conflict{outline:2px solid var(--over-fg);outline-offset:-2px;font-weight:600}";


// ---------------------------------------------------------------------------
// Laws
// ---------------------------------------------------------------------------

/// A restatement never hides a real override: where any match that a spoke
/// feeds for a key differs from the hub, in whatever order they are fed, the
/// spoke's cell is one that differs.
pub proof fn an_override_survives(r: Row, f: Seq<Fed>, values: Map<Seq<char>, String>, i: int)
    requires
        row_is(r, f, values),
        0 <= i < f.len(),
        f[i].1.hub_key@ == r.hub_key@,
        f[i].1.spoke_value@ != r.hub_value@,
    ensures
        r.cells@.contains_key(f[i].0),
        r.cells@[f[i].0].differs,
        r.cells@[f[i].0].value@ != r.hub_value@,
{
    let key = r.hub_key@;
    let n = f[i].0;
    let on = on_cell(f, key, n);
    filtered(f, of_cell(key, n));
    assert(of_cell(key, n)(f[i]));
    assert(on.contains(f[i]));
    let a = choose|a: int| 0 <= a < on.len() && on[a] == f[i];
    filtered(on, overrides(r.hub_value@));
    assert(overrides(r.hub_value@)(on[a]));
    assert(differing(on, r.hub_value@).contains(on[a]));
    shown_differs(on, r.hub_value@);
    assert(r.cells@.contains_key(n));
}

/// The file of a row does not depend on the order in which its matches are
/// fed, nor on how often one of them is repeated.
pub proof fn the_file_is_order_free(a: Seq<Seq<char>>, b: Seq<Seq<char>>)
    requires
        a.to_set() == b.to_set(),
    ensures
        agreed(a) == agreed(b),
{
    if unanimous(a) {
        one_way(a, b);
    }
    if unanimous(b) {
        one_way(b, a);
    }
}

spec fn unanimous(a: Seq<Seq<char>>) -> bool {
    a.len() > 0 && forall|i: int| 0 <= i < a.len() ==> #[trigger] a[i] == a[0]
}

proof fn one_way(a: Seq<Seq<char>>, b: Seq<Seq<char>>)
    requires
        a.to_set() == b.to_set(),
        unanimous(a),
    ensures
        unanimous(b),
        b[0] == a[0],
{
    assert(a.to_set().contains(a[0]));
    assert(b.contains(a[0]));
    assert forall|i: int| 0 <= i < b.len() implies #[trigger] b[i] == a[0] by {
        assert(b.to_set().contains(b[i]));
        assert(a.contains(b[i]));
    }
}

/// What a drift cell shows does not depend on the order of the orphans, nor on
/// how often one of them is repeated: orphans that are the same set give the
/// same cell.
pub proof fn a_drift_cell_is_order_free(
    a: Seq<Stray>,
    b: Seq<Stray>,
    key: Seq<char>,
    spoke: Seq<char>,
    c: DriftCell,
    d: DriftCell,
)
    requires
        a.to_set() == b.to_set(),
        drift_shows(c, stray_values(a, key, spoke)),
        drift_shows(d, stray_values(b, key, spoke)),
    ensures
        c.value@ == d.value@,
        c.conflict == d.conflict,
{
    assert forall|v: Seq<char>| stray_values(a, key, spoke).contains(v) <==> stray_values(
        b,
        key,
        spoke,
    ).contains(v) by {
        if stray_values(a, key, spoke).contains(v) {
            let i = choose|i: int|
                #![trigger a[i]]
                0 <= i < a.len() && a[i].0 == spoke && a[i].1.0@ == key && a[i].1.1@ == v;
            assert(a.to_set().contains(a[i]));
            assert(b.contains(a[i]));
        }
        if stray_values(b, key, spoke).contains(v) {
            let i = choose|i: int|
                #![trigger b[i]]
                0 <= i < b.len() && b[i].0 == spoke && b[i].1.0@ == key && b[i].1.1@ == v;
            assert(b.to_set().contains(b[i]));
            assert(a.contains(b[i]));
        }
    }
    assert(stray_values(a, key, spoke) =~= stray_values(b, key, spoke));
    let set = stray_values(a, key, spoke);
    let x = choose|vals: Seq<Seq<char>>|
        {
            &&& #[trigger] lists(vals, set)
            &&& c.value@ == join_of(vals, " | "@)
            &&& c.conflict == (vals.len() > 1)
        };
    let y = choose|vals: Seq<Seq<char>>|
        {
            &&& #[trigger] lists(vals, set)
            &&& d.value@ == join_of(vals, " | "@)
            &&& d.conflict == (vals.len() > 1)
        };
    lists_unique(x, y, set);
}

/// Every key has at most one row, whether overridden or drifting.
pub proof fn one_row_per_key(
    m: OverrideMatrix,
    hub: Seq<char>,
    values: Map<Seq<char>, String>,
    spokes: Seq<SpokeInput>,
    pinned: bool,
)
    requires
        matrix_is(m, hub, values, spokes, pinned),
    ensures
        forall|i: int, j: int|
            0 <= i < j < m.rows@.len() ==> (#[trigger] m.rows@[i]).hub_key@ != (
            #[trigger] m.rows@[j]).hub_key@,
        forall|i: int, j: int|
            0 <= i < j < m.drift@.len() ==> (#[trigger] m.drift@[i]).key@ != (
            #[trigger] m.drift@[j]).key@,
{
    assert forall|i: int, j: int| 0 <= i < j < m.rows@.len() implies (#[trigger] m.rows@[i]).hub_key@
        != (#[trigger] m.rows@[j]).hub_key@ by {
        let k = row_keys(m.rows@);
        assert(crate::text::before(k[i], k[j]));
        crate::text::before_asymmetric(k[i], k[j]);
    }
    assert forall|i: int, j: int| 0 <= i < j < m.drift@.len() implies (#[trigger] m.drift@[i]).key@
        != (#[trigger] m.drift@[j]).key@ by {
        let k = drift_keys(m.drift@);
        assert(crate::text::before(k[i], k[j]));
        crate::text::before_asymmetric(k[i], k[j]);
    }
}

proof fn fed_from(spokes: Seq<SpokeInput>, i: int) -> (s: int)
    requires
        0 <= i < fed(spokes).len(),
    ensures
        0 <= s < spokes.len(),
        spokes[s].name@ == fed(spokes)[i].0,
        spokes[s].matches@.len() > 0,
    decreases spokes.len(),
{
    let rest = fed(spokes.drop_last());
    if i < rest.len() {
        fed_from(spokes.drop_last(), i)
    } else {
        assert(fed(spokes)[i] == fed_by(spokes.last())[i - rest.len()]);
        spokes.len() - 1
    }
}

proof fn strays_from(spokes: Seq<SpokeInput>, i: int) -> (s: int)
    requires
        0 <= i < strays(spokes).len(),
    ensures
        0 <= s < spokes.len(),
        spokes[s].name@ == strays(spokes)[i].0,
        spokes[s].orphans@.len() > 0,
    decreases spokes.len(),
{
    let rest = strays(spokes.drop_last());
    if i < rest.len() {
        strays_from(spokes.drop_last(), i)
    } else {
        assert(strays(spokes)[i] == strays_of(spokes.last())[i - rest.len()]);
        spokes.len() - 1
    }
}

/// Every cell has a column to stand in: a spoke that overrides a key or that
/// drifts on one is among the matrix's spokes.
pub proof fn every_cell_has_a_column(
    m: OverrideMatrix,
    hub: Seq<char>,
    values: Map<Seq<char>, String>,
    spokes: Seq<SpokeInput>,
    pinned: bool,
    spoke: Seq<char>,
)
    requires
        matrix_is(m, hub, values, spokes, pinned),
        (exists|i: int|
            0 <= i < m.rows@.len() && (#[trigger] m.rows@[i]).cells@.contains_key(spoke)) || (exists|
            i: int,
        |
            0 <= i < m.drift@.len() && (#[trigger] m.drift@[i]).cells@.contains_key(spoke)),
    ensures
        views(m.spokes@).contains(spoke),
{
    let f = fed(spokes);
    let o = strays(spokes);
    if exists|i: int|
        0 <= i < m.rows@.len() && (#[trigger] m.rows@[i]).cells@.contains_key(spoke) {
        let i = choose|i: int|
            0 <= i < m.rows@.len() && (#[trigger] m.rows@[i]).cells@.contains_key(spoke);
        let key = m.rows@[i].hub_key@;
        let on = on_cell(f, key, spoke);
        filtered(f, of_cell(key, spoke));
        assert(on.len() > 0);
        assert(of_cell(key, spoke)(on[0]));
        assert(f.contains(on[0]));
        let a = choose|a: int| 0 <= a < f.len() && f[a] == on[0];
        let s = fed_from(spokes, a);
        assert(columns_of(spokes).contains(spoke));
    } else {
        let i = choose|i: int|
            0 <= i < m.drift@.len() && (#[trigger] m.drift@[i]).cells@.contains_key(spoke);
        let key = m.drift@[i].key@;
        assert(sets(o, key, spoke));
        let a = choose|a: int| 0 <= a < o.len() && #[trigger] o[a].1.0@ == key && o[a].0 == spoke;
        let s = strays_from(spokes, a);
        assert(columns_of(spokes).contains(spoke));
    }
}

/// A run that asked for pins never renders like one that did not, even where
/// no spoke pins anything.
pub proof fn asking_for_pins_shows(asked: OverrideMatrix, plain: OverrideMatrix)
    requires
        asked.pinned,
        !plain.pinned,
        plain.hub@ == asked.hub@,
        plain.spokes == asked.spokes,
        plain.rows == asked.rows,
        plain.drift == asked.drift,
    ensures
        text_of(asked) != text_of(plain),
{
    reveal_strlit(" pinned one):\n");
    assert(pins_text(asked).len() > 0);
    assert(text_of(asked).len() == text_of(plain).len() + pins_text(asked).len());
}

} // verus!
