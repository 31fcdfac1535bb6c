//! What holds of every matrix, whatever is fed to it.
use vstd::prelude::*;

use crate::names::{increasing, lists};
use crate::overview::{
    body_cell, body_row, cell_line, columns_of, drift_body_cell, drift_body_row, drift_head_cell,
    drift_is, drift_keys, drift_line, drift_row_text, drift_shows, drift_table, drift_text, fed,
    fed_by, files_of, head_cell, head_row, html_of, is_hex, matched_keys, matrix_is, names_file,
    of_cell, on_cell, overrides, page_body, pin_line, pins_of, pins_text, row_is, row_keys,
    row_text, sets, short_rev_of, stray_keys, stray_values, strays, strays_of, text_of, via_note,
    Cell, Drift, DriftCell, Fed, OverrideMatrix, Row, SpokeInput, Stray, CSS, DRIFT_INTRO, LEGEND,
    PAGE_MAIN, PAGE_OPEN,
};
use crate::seqs::filtered;
use crate::text::{
    before, before_asymmetric, contains, contains_within, decimal_of, escaped, holds_its_middle,
    join_of, over, over_contains, views,
};

verus! {

// ---------------------------------------------------------------------------
// What is fed
// ---------------------------------------------------------------------------

/// What spokes feed is what each feeds, one spoke after the other: each of its
/// matches and orphans, under its name, in its order.
pub proof fn spokes_feed_in_turn(a: Seq<SpokeInput>, b: Seq<SpokeInput>, s: SpokeInput)
    ensures
        fed(a + b) == fed(a) + fed(b),
        strays(a + b) == strays(a) + strays(b),
        fed(seq![s]).len() == s.matches@.len(),
        forall|i: int|
            0 <= i < s.matches@.len() ==> #[trigger] fed(seq![s])[i] == (s.name@, s.matches@[i]),
        strays(seq![s]).len() == s.orphans@.len(),
        forall|i: int|
            0 <= i < s.orphans@.len() ==> #[trigger] strays(seq![s])[i] == (s.name@, s.orphans@[i]),
    decreases b.len(),
{
    let one = seq![s];
    reveal_with_fuel(fed, 2);
    reveal_with_fuel(strays, 2);
    assert(one.drop_last().len() == 0);
    assert(fed(one) =~= fed_by(s));
    assert(strays(one) =~= strays_of(s));
    if b.len() == 0 {
        assert(a + b =~= a);
        assert(fed(a) + fed(b) =~= fed(a));
        assert(strays(a) + strays(b) =~= strays(a));
    } else {
        let t = b.drop_last();
        spokes_feed_in_turn(a, t, s);
        assert((a + b).drop_last() =~= a + t);
        assert((a + b).last() == b.last());
        assert(fed(a) + fed(t) + fed_by(b.last()) =~= fed(a) + (fed(t) + fed_by(b.last())));
        assert(strays(a) + strays(t) + strays_of(b.last()) =~= strays(a) + (strays(t) + strays_of(
            b.last(),
        )));
    }
}

proof fn a_match_is_fed(spokes: Seq<SpokeInput>, i: int, j: int) -> (k: int)
    requires
        0 <= i < spokes.len(),
        0 <= j < spokes[i].matches@.len(),
    ensures
        0 <= k < fed(spokes).len(),
        fed(spokes)[k] == (spokes[i].name@, spokes[i].matches@[j]),
    decreases spokes.len(),
{
    let front = fed(spokes.drop_last());
    if i < spokes.len() - 1 {
        let k = a_match_is_fed(spokes.drop_last(), i, j);
        assert(fed(spokes)[k] == front[k]);
        k
    } else {
        let k = front.len() + j;
        assert(fed(spokes)[k] == fed_by(spokes.last())[j]);
        k
    }
}

proof fn an_orphan_is_fed(spokes: Seq<SpokeInput>, i: int, j: int) -> (k: int)
    requires
        0 <= i < spokes.len(),
        0 <= j < spokes[i].orphans@.len(),
    ensures
        0 <= k < strays(spokes).len(),
        strays(spokes)[k] == (spokes[i].name@, spokes[i].orphans@[j]),
    decreases spokes.len(),
{
    let front = strays(spokes.drop_last());
    if i < spokes.len() - 1 {
        let k = an_orphan_is_fed(spokes.drop_last(), i, j);
        assert(strays(spokes)[k] == front[k]);
        k
    } else {
        let k = front.len() + j;
        assert(strays(spokes)[k] == strays_of(spokes.last())[j]);
        k
    }
}

proof fn fed_by_some(spokes: Seq<SpokeInput>, k: int) -> (r: (int, int))
    requires
        0 <= k < fed(spokes).len(),
    ensures
        0 <= r.0 < spokes.len(),
        0 <= r.1 < spokes[r.0].matches@.len(),
        fed(spokes)[k] == (spokes[r.0].name@, spokes[r.0].matches@[r.1]),
    decreases spokes.len(),
{
    let front = fed(spokes.drop_last());
    if k < front.len() {
        assert(fed(spokes)[k] == front[k]);
        fed_by_some(spokes.drop_last(), k)
    } else {
        assert(fed(spokes)[k] == fed_by(spokes.last())[k - front.len()]);
        (spokes.len() - 1, k - front.len())
    }
}

// ---------------------------------------------------------------------------
// Rows
// ---------------------------------------------------------------------------

/// The row shows the spoke `n`.
pub open spec fn has_cell(m: OverrideMatrix, key: Seq<char>, n: Seq<char>) -> bool {
    exists|k: int|
        0 <= k < m.rows@.len() && (#[trigger] m.rows@[k]).hub_key@ == key
            && m.rows@[k].cells@.contains_key(n)
}

/// Every match that any spoke feeds has its row, and in it the cell of that spoke;
/// every row is of a key that some spoke matches; and the rows stand in the order
/// of their keys.
pub proof fn every_match_has_its_cell(
    m: OverrideMatrix,
    hub: Seq<char>,
    values: Map<Seq<char>, String>,
    spokes: Seq<SpokeInput>,
    pinned: bool,
)
    requires
        matrix_is(m, hub, values, spokes, pinned),
    ensures
        m.hub@ == hub,
        m.pinned == pinned,
        forall|i: int, j: int|
            #![trigger spokes[i].matches@[j]]
            0 <= i < spokes.len() && 0 <= j < spokes[i].matches@.len() ==> has_cell(
                m,
                spokes[i].matches@[j].hub_key@,
                spokes[i].name@,
            ),
        forall|k: int|
            #![trigger m.rows@[k]]
            0 <= k < m.rows@.len() ==> is_matched(spokes, m.rows@[k].hub_key@),
        forall|j: int, k: int|
            #![trigger m.rows@[j], m.rows@[k]]
            0 <= j < k < m.rows@.len() ==> before(m.rows@[j].hub_key@, m.rows@[k].hub_key@),
        forall|k: int|
            #![trigger m.rows@[k]]
            0 <= k < m.rows@.len() ==> m.rows@[k].hub_value@ == (if values.contains_key(
                m.rows@[k].hub_key@,
            ) {
                values[m.rows@[k].hub_key@]@
            } else {
                Seq::empty()
            }),
{
    let f = fed(spokes);
    let keys = row_keys(m.rows@);
    assert forall|i: int, j: int|
        #![trigger spokes[i].matches@[j]]
        0 <= i < spokes.len() && 0 <= j < spokes[i].matches@.len() implies has_cell(
        m,
        spokes[i].matches@[j].hub_key@,
        spokes[i].name@,
    ) by {
        let x = a_match_is_fed(spokes, i, j);
        let key = spokes[i].matches@[j].hub_key@;
        let n = spokes[i].name@;
        assert(f[x].1.hub_key@ == key);
        assert(matched_keys(f).contains(key));
        assert(keys.contains(key));
        let k = choose|k: int| 0 <= k < keys.len() && keys[k] == key;
        assert(row_is(m.rows@[k], f, values));
        filtered(f, of_cell(key, n));
        assert(of_cell(key, n)(f[x]));
        assert(on_cell(f, key, n).contains(f[x]));
        assert(m.rows@[k].cells@.contains_key(n));
        assert(m.rows@[k].hub_key@ == key);
    }
    assert forall|k: int| #![trigger m.rows@[k]] 0 <= k < m.rows@.len() implies is_matched(
        spokes,
        m.rows@[k].hub_key@,
    ) by {
        assert(keys[k] == m.rows@[k].hub_key@);
        assert(keys.contains(keys[k]));
        let x = choose|x: int| 0 <= x < f.len() && #[trigger] f[x].1.hub_key@ == keys[k];
        let (i, j) = fed_by_some(spokes, x);
        assert(spokes[i].matches@[j].hub_key@ == keys[k]);
    }
    assert forall|j: int, k: int|
        #![trigger m.rows@[j], m.rows@[k]]
        0 <= j < k < m.rows@.len() implies before(m.rows@[j].hub_key@, m.rows@[k].hub_key@) by {
        assert(before(keys[j], keys[k]));
    }
    assert forall|k: int| #![trigger m.rows@[k]] 0 <= k < m.rows@.len() implies m.rows@[k].hub_value@
        == (if values.contains_key(m.rows@[k].hub_key@) {
        values[m.rows@[k].hub_key@]@
    } else {
        Seq::empty()
    }) by {
        assert(row_is(m.rows@[k], f, values));
    }
}

/// Some spoke matches the hub's key.
pub open spec fn is_matched(spokes: Seq<SpokeInput>, key: Seq<char>) -> bool {
    exists|i: int, j: int|
        #![trigger spokes[i].matches@[j]]
        0 <= i < spokes.len() && 0 <= j < spokes[i].matches@.len()
            && spokes[i].matches@[j].hub_key@ == key
}

/// The match that was fed in the place `i` is of this key and this spoke.
pub open spec fn is_of(f: Seq<Fed>, i: int, key: Seq<char>, n: Seq<char>) -> bool {
    0 <= i < f.len() && f[i].1.hub_key@ == key && f[i].0 == n
}

proof fn first_kept(f: Seq<Fed>, p: spec_fn(Fed) -> bool, i: int)
    requires
        0 <= i < f.len(),
        p(f[i]),
        forall|j: int| 0 <= j < i ==> !p(#[trigger] f[j]),
    ensures
        f.filter(p).len() > 0,
        f.filter(p)[0] == f[i],
    decreases f.len(),
{
    reveal(Seq::filter);
    let t = f.drop_last();
    if i < t.len() {
        first_kept(t, p, i);
    } else {
        filtered(t, p);
        if t.filter(p).len() > 0 {
            assert(p(t.filter(p)[0]));
            let k = choose|k: int| 0 <= k < t.len() && t[k] == t.filter(p)[0];
            assert(!p(f[k]));
        }
    }
}

proof fn filtered_twice(f: Seq<Fed>, p: spec_fn(Fed) -> bool, q: spec_fn(Fed) -> bool, pq: spec_fn(
    Fed,
) -> bool)
    requires
        forall|e: Fed| #[trigger] pq(e) <==> p(e) && q(e),
    ensures
        f.filter(p).filter(q) == f.filter(pq),
    decreases f.len(),
{
    reveal(Seq::filter);
    if f.len() > 0 {
        filtered_twice(f.drop_last(), p, q, pq);
        let a = f.drop_last().filter(p);
        assert(pq(f.last()) <==> p(f.last()) && q(f.last()));
        if p(f.last()) {
            crate::seqs::filter_push(a, f.last(), q);
        }
    }
}

/// A cell shows what its spoke fed first for the key among what differs from the
/// hub; only where nothing differs, what it fed first. It shows it whole: value,
/// the spoke's own key, confidence and provenance, and it differs exactly if the
/// value is not the hub's.
pub proof fn a_cell_shows_the_first_real_override(
    r: Row,
    f: Seq<Fed>,
    values: Map<Seq<char>, String>,
    n: Seq<char>,
    i: int,
)
    requires
        row_is(r, f, values),
        is_of(f, i, r.hub_key@, n),
        f[i].1.spoke_value@ != r.hub_value@ ==> forall|j: int|
            0 <= j < i && is_of(f, j, r.hub_key@, n) ==> (#[trigger] f[j]).1.spoke_value@
                == r.hub_value@,
        f[i].1.spoke_value@ == r.hub_value@ ==> forall|j: int|
            #![trigger f[j]]
            is_of(f, j, r.hub_key@, n) ==> j >= i && f[j].1.spoke_value@ == r.hub_value@,
    ensures
        r.cells@.contains_key(n),
        r.cells@[n].value@ == f[i].1.spoke_value@,
        r.cells@[n].spoke_key@ == f[i].1.spoke_key@,
        r.cells@[n].confidence == f[i].1.confidence,
        r.cells@[n].provenance == f[i].1.provenance,
        r.cells@[n].differs == (f[i].1.spoke_value@ != r.hub_value@),
{
    let key = r.hub_key@;
    let p = of_cell(key, n);
    let q = overrides(r.hub_value@);
    let on = on_cell(f, key, n);
    let pq = |e: Fed| p(e) && q(e);
    filtered_twice(f, p, q, pq);
    filtered(f, p);
    assert(p(f[i]));
    assert(on.contains(f[i]));
    if f[i].1.spoke_value@ != r.hub_value@ {
        assert forall|j: int| 0 <= j < i implies !pq(#[trigger] f[j]) by {
            if pq(f[j]) {
                assert(is_of(f, j, key, n));
            }
        }
        first_kept(f, pq, i);
    } else {
        filtered(f, pq);
        if f.filter(pq).len() > 0 {
            let e = f.filter(pq)[0];
            assert(pq(e) && f.contains(e));
            let j = choose|j: int| 0 <= j < f.len() && f[j] == e;
            assert(is_of(f, j, key, n));
        }
        assert forall|j: int| 0 <= j < i implies !p(#[trigger] f[j]) by {
            if p(f[j]) {
                assert(is_of(f, j, key, n));
            }
        }
        first_kept(f, p, i);
    }
    assert(r.cells@.contains_key(n));
}

/// A row has a cell for a spoke exactly if that spoke fed a match for its key.
pub proof fn only_matching_spokes_have_a_cell(
    r: Row,
    f: Seq<Fed>,
    values: Map<Seq<char>, String>,
    n: Seq<char>,
)
    requires
        row_is(r, f, values),
    ensures
        r.cells@.contains_key(n) <==> exists|i: int| #[trigger] is_of(f, i, r.hub_key@, n),
{
    let p = of_cell(r.hub_key@, n);
    let on = on_cell(f, r.hub_key@, n);
    filtered(f, p);
    if r.cells@.contains_key(n) {
        assert(p(on[0]) && f.contains(on[0]));
        let i = choose|i: int| 0 <= i < f.len() && f[i] == on[0];
        assert(is_of(f, i, r.hub_key@, n));
    }
    if exists|i: int| #[trigger] is_of(f, i, r.hub_key@, n) {
        let i = choose|i: int| #[trigger] is_of(f, i, r.hub_key@, n);
        assert(p(f[i]));
        assert(on.contains(f[i]));
    }
}

/// A row names a file exactly if the matches of its key that know one agree on it:
/// one that some match knows and none contradicts, whichever spokes they are of.
pub proof fn a_row_names_an_undisputed_file(
    r: Row,
    f: Seq<Fed>,
    values: Map<Seq<char>, String>,
    i: int,
)
    requires
        row_is(r, f, values),
        0 <= i < f.len(),
        f[i].1.hub_key@ == r.hub_key@,
        f[i].1.file@.len() > 0,
    ensures
        (forall|j: int|
            0 <= j < f.len() && (#[trigger] f[j]).1.hub_key@ == r.hub_key@ && f[j].1.file@.len() > 0
                ==> f[j].1.file@ == f[i].1.file@) ==> r.file@ == f[i].1.file@,
        (exists|j: int|
            0 <= j < f.len() && (#[trigger] f[j]).1.hub_key@ == r.hub_key@ && f[j].1.file@.len() > 0
                && f[j].1.file@ != f[i].1.file@) ==> r.file@.len() == 0,
{
    let p = names_file(r.hub_key@);
    let kept = f.filter(p);
    let files = files_of(f, r.hub_key@);
    filtered(f, p);
    assert(p(f[i]));
    assert(kept.contains(f[i]));
    let a = choose|a: int| 0 <= a < kept.len() && kept[a] == f[i];
    assert(files[a] == f[i].1.file@);
    if forall|j: int|
        0 <= j < f.len() && (#[trigger] f[j]).1.hub_key@ == r.hub_key@ && f[j].1.file@.len() > 0
            ==> f[j].1.file@ == f[i].1.file@ {
        assert forall|x: int| 0 <= x < files.len() implies #[trigger] files[x] == f[i].1.file@ by {
            assert(files[x] == kept[x].1.file@);
            assert(p(kept[x]) && f.contains(kept[x]));
            let j = choose|j: int| 0 <= j < f.len() && f[j] == kept[x];
            assert(f[j].1.file@ == f[i].1.file@);
        }
        assert(files[0] == f[i].1.file@);
    }
    if exists|j: int|
        0 <= j < f.len() && (#[trigger] f[j]).1.hub_key@ == r.hub_key@ && f[j].1.file@.len() > 0
            && f[j].1.file@ != f[i].1.file@ {
        let j = choose|j: int|
            0 <= j < f.len() && (#[trigger] f[j]).1.hub_key@ == r.hub_key@ && f[j].1.file@.len() > 0
                && f[j].1.file@ != f[i].1.file@;
        assert(p(f[j]));
        assert(kept.contains(f[j]));
        let b = choose|b: int| 0 <= b < kept.len() && kept[b] == f[j];
        assert(files[b] == f[j].1.file@);
        assert(files[a] != files[b]);
        if forall|x: int| 0 <= x < files.len() ==> #[trigger] files[x] == files[0] {
            assert(files[a] == files[0] && files[b] == files[0]);
        }
    }
}

// ---------------------------------------------------------------------------
// Columns, pins and drift
// ---------------------------------------------------------------------------

/// The columns are the spokes that feed anything, a match or an orphan, in the
/// order of their names.
pub proof fn every_spoke_that_feeds_has_a_column(
    m: OverrideMatrix,
    hub: Seq<char>,
    values: Map<Seq<char>, String>,
    spokes: Seq<SpokeInput>,
    pinned: bool,
    n: Seq<char>,
)
    requires
        matrix_is(m, hub, values, spokes, pinned),
    ensures
        views(m.spokes@).contains(n) <==> exists|i: int|
            0 <= i < spokes.len() && (#[trigger] spokes[i]).name@ == n && (spokes[i].matches@.len()
                > 0 || spokes[i].orphans@.len() > 0),
        forall|j: int, k: int|
            #![trigger m.spokes@[j], m.spokes@[k]]
            0 <= j < k < m.spokes@.len() ==> before(m.spokes@[j]@, m.spokes@[k]@),
{
    assert(views(m.spokes@).contains(n) <==> columns_of(spokes).contains(n));
    assert forall|j: int, k: int|
        #![trigger m.spokes@[j], m.spokes@[k]]
        0 <= j < k < m.spokes@.len() implies before(m.spokes@[j]@, m.spokes@[k]@) by {
        let v = views(m.spokes@);
        assert(before(v[j], v[k]));
    }
}

/// A spoke's pin is the last that was fed under its name; a name that no pin was
/// fed under has none, whatever it feeds.
pub proof fn a_spokes_pin_is_its_last(spokes: Seq<SpokeInput>, n: Seq<char>)
    ensures
        forall|i: int|
            #![trigger spokes[i]]
            0 <= i < spokes.len() && spokes[i].name@ == n && spokes[i].pin is Some && (forall|
                j: int,
            |
                i < j < spokes.len() && (#[trigger] spokes[j]).name@ == n ==> spokes[j].pin is None)
                ==> pins_of(spokes).contains_key(n) && pins_of(spokes)[n] == spokes[i].pin->0,
        (forall|j: int|
            0 <= j < spokes.len() && (#[trigger] spokes[j]).name@ == n ==> spokes[j].pin is None)
            ==> !pins_of(spokes).contains_key(n),
    decreases spokes.len(),
{
    if spokes.len() > 0 {
        let t = spokes.drop_last();
        let last = spokes.len() - 1;
        a_spokes_pin_is_its_last(t, n);
        assert forall|i: int|
            #![trigger spokes[i]]
            0 <= i < spokes.len() && spokes[i].name@ == n && spokes[i].pin is Some && (forall|
                j: int,
            |
                i < j < spokes.len() && (#[trigger] spokes[j]).name@ == n ==> spokes[j].pin is None) implies pins_of(
            spokes,
        ).contains_key(n) && pins_of(spokes)[n] == spokes[i].pin->0 by {
            if i < last {
                assert(t[i] == spokes[i]);
                assert forall|j: int| i < j < t.len() && (#[trigger] t[j]).name@ == n implies t[j].pin
                    is None by {
                    assert(t[j] == spokes[j]);
                }
                if spokes[last].name@ == n {
                    assert(spokes[last].pin is None);
                }
            }
        }
        if forall|j: int|
            0 <= j < spokes.len() && (#[trigger] spokes[j]).name@ == n ==> spokes[j].pin is None {
            assert forall|j: int| 0 <= j < t.len() && (#[trigger] t[j]).name@ == n implies t[j].pin
                is None by {
                assert(t[j] == spokes[j]);
            }
            if spokes[last].name@ == n {
                assert(spokes[last].pin is None);
            }
        }
    }
}

/// The drift row of the key shows the spoke `n`.
pub open spec fn drifts(m: OverrideMatrix, key: Seq<char>, n: Seq<char>) -> bool {
    exists|k: int|
        0 <= k < m.drift@.len() && (#[trigger] m.drift@[k]).key@ == key
            && m.drift@[k].cells@.contains_key(n)
}

/// Every orphan that any spoke feeds has its drift row, and in it the cell of that
/// spoke, an empty value's too; and the drift rows stand in the order of their
/// keys.
pub proof fn every_orphan_drifts(
    m: OverrideMatrix,
    hub: Seq<char>,
    values: Map<Seq<char>, String>,
    spokes: Seq<SpokeInput>,
    pinned: bool,
)
    requires
        matrix_is(m, hub, values, spokes, pinned),
    ensures
        forall|i: int, j: int|
            #![trigger spokes[i].orphans@[j]]
            0 <= i < spokes.len() && 0 <= j < spokes[i].orphans@.len() ==> drifts(
                m,
                spokes[i].orphans@[j].0@,
                spokes[i].name@,
            ),
        forall|j: int, k: int|
            #![trigger m.drift@[j], m.drift@[k]]
            0 <= j < k < m.drift@.len() ==> before(m.drift@[j].key@, m.drift@[k].key@),
{
    let o = strays(spokes);
    let keys = drift_keys(m.drift@);
    assert forall|i: int, j: int|
        #![trigger spokes[i].orphans@[j]]
        0 <= i < spokes.len() && 0 <= j < spokes[i].orphans@.len() implies drifts(
        m,
        spokes[i].orphans@[j].0@,
        spokes[i].name@,
    ) by {
        let x = an_orphan_is_fed(spokes, i, j);
        let key = spokes[i].orphans@[j].0@;
        let n = spokes[i].name@;
        assert(o[x].1.0@ == key && o[x].0 == n);
        assert(stray_keys(o).contains(key));
        assert(keys.contains(key));
        let k = choose|k: int| 0 <= k < keys.len() && keys[k] == key;
        assert(drift_is(m.drift@[k], o));
        assert(sets(o, key, n));
        assert(m.drift@[k].cells@.contains_key(n));
        assert(m.drift@[k].key@ == key);
    }
    assert forall|j: int, k: int|
        #![trigger m.drift@[j], m.drift@[k]]
        0 <= j < k < m.drift@.len() implies before(m.drift@[j].key@, m.drift@[k].key@) by {
        assert(before(keys[j], keys[k]));
    }
}

/// The spoke gave the drifting key this value.
pub open spec fn gave(o: Seq<Stray>, key: Seq<char>, n: Seq<char>, v: Seq<char>) -> bool {
    exists|i: int|
        #![trigger o[i]]
        0 <= i < o.len() && o[i].0 == n && o[i].1.0@ == key && o[i].1.1@ == v
}

/// A drift cell shows the one value that its spoke gave, blanks aside; nothing
/// where it gave none but blanks; and it is a conflict exactly if it gave two that
/// differ.
pub proof fn a_drift_cell_shows_what_was_given(d: Drift, o: Seq<Stray>, n: Seq<char>)
    requires
        drift_is(d, o),
        d.cells@.contains_key(n),
    ensures
        d.cells@[n].conflict <==> exists|v: Seq<char>, w: Seq<char>| #[trigger]
            gave(o, d.key@, n, v) && #[trigger] gave(o, d.key@, n, w) && v.len() > 0 && w.len() > 0
                && v != w,
        forall|v: Seq<char>|
            !d.cells@[n].conflict && v.len() > 0 && #[trigger] gave(o, d.key@, n, v)
                ==> d.cells@[n].value@ == v,
        (forall|v: Seq<char>| #[trigger] gave(o, d.key@, n, v) ==> v.len() == 0)
            ==> d.cells@[n].value@.len() == 0,
        forall|v: Seq<char>|
            v.len() > 0 && #[trigger] gave(o, d.key@, n, v) ==> crate::text::contains(
                d.cells@[n].value@,
                v,
            ),
{
    let c = d.cells@[n];
    let vals = values_of_cell(d, o, n);
    if vals.len() > 1 {
        assert(before(vals[0], vals[1]));
        before_asymmetric(vals[0], vals[1]);
        assert(gave(o, d.key@, n, vals[0]) && gave(o, d.key@, n, vals[1]));
    }
    assert forall|v: Seq<char>, w: Seq<char>| #[trigger]
        gave(o, d.key@, n, v) && #[trigger] gave(o, d.key@, n, w) && v.len() > 0 && w.len() > 0 && v
            != w implies vals.len() > 1 by {
        let i = choose|i: int| 0 <= i < vals.len() && vals[i] == v;
        let j = choose|j: int| 0 <= j < vals.len() && vals[j] == w;
        assert(i != j);
    }
    assert forall|v: Seq<char>| v.len() > 0 && #[trigger] gave(o, d.key@, n, v) implies crate::text::contains(
        c.value@,
        v,
    ) && (vals.len() <= 1 ==> c.value@ == v) by {
        let i = choose|i: int| 0 <= i < vals.len() && vals[i] == v;
        crate::text::join_holds_each(vals, " | "@, i);
    }
    if forall|v: Seq<char>| #[trigger] gave(o, d.key@, n, v) ==> v.len() == 0 {
        if vals.len() > 0 {
            assert(gave(o, d.key@, n, vals[0]));
        }
    }
}

proof fn values_of_cell(d: Drift, o: Seq<Stray>, n: Seq<char>) -> (vals: Seq<Seq<char>>)
    requires
        drift_is(d, o),
        d.cells@.contains_key(n),
    ensures
        increasing(vals),
        d.cells@[n].value@ == join_of(vals, " | "@),
        d.cells@[n].conflict == (vals.len() > 1),
        forall|v: Seq<char>|
            v.len() > 0 && #[trigger] gave(o, d.key@, n, v) ==> exists|i: int|
                0 <= i < vals.len() && vals[i] == v,
        forall|i: int|
            #![trigger vals[i]]
            0 <= i < vals.len() ==> vals[i].len() > 0 && gave(o, d.key@, n, vals[i]),
{
    let set = stray_values(o, d.key@, n);
    let c = d.cells@[n];
    assert(drift_shows(c, set));
    let vals = choose|vals: Seq<Seq<char>>|
        {
            &&& #[trigger] lists(vals, set)
            &&& c.value@ == join_of(vals, " | "@)
            &&& c.conflict == (vals.len() > 1)
        };
    assert forall|v: Seq<char>| v.len() > 0 && #[trigger] gave(o, d.key@, n, v) implies exists|i: int|
        0 <= i < vals.len() && vals[i] == v by {
        assert(set.contains(v));
        assert(vals.contains(v));
    }
    assert forall|i: int| #![trigger vals[i]] 0 <= i < vals.len() implies vals[i].len() > 0 && gave(
        o,
        d.key@,
        n,
        vals[i],
    ) by {
        assert(vals.contains(vals[i]));
        assert(set.contains(vals[i]));
    }
    vals
}

// ---------------------------------------------------------------------------
// Revisions
// ---------------------------------------------------------------------------

/// A revision is shown by what it begins with; whole, unless it is forty
/// hexadecimal digits, of which the first ten are shown.
pub proof fn only_a_sha_is_cut(rev: Seq<char>, i: int)
    ensures
        short_rev_of(rev).len() <= rev.len(),
        short_rev_of(rev) == rev.take(short_rev_of(rev).len() as int),
        rev.len() != 40 ==> short_rev_of(rev) == rev,
        0 <= i < rev.len() && !("0123456789abcdefABCDEF"@.contains(rev[i])) ==> short_rev_of(rev)
            == rev,
        rev.len() == 40 && (forall|j: int|
            0 <= j < 40 ==> "0123456789abcdefABCDEF"@.contains(#[trigger] rev[j])) ==> short_rev_of(
            rev,
        ).len() == 10,
{
    reveal_strlit("0123456789abcdefABCDEF");
    let digits = "0123456789abcdefABCDEF"@;
    assert(rev.take(rev.len() as int) =~= rev);
    assert forall|c: char| is_hex(c) implies #[trigger] digits.contains(c) by {
        let k = if '0' <= c && c <= '9' {
            c as int - 0x30
        } else if 'a' <= c && c <= 'f' {
            c as int - 0x61 + 10
        } else {
            c as int - 0x41 + 16
        };
        assert(0 <= k < 22);
        assert(digits[k] == c);
    }
    assert forall|c: char| #[trigger] digits.contains(c) implies is_hex(c) by {
        let k = choose|k: int| 0 <= k < digits.len() && digits[k] == c;
        assert(0 <= k < 22);
    }
    if rev.len() == 40 {
        assert(rev.subrange(0, 10) =~= rev.take(10));
        if forall|j: int| 0 <= j < 40 ==> digits.contains(#[trigger] rev[j]) {
            assert forall|j: int| 0 <= j < rev.len() implies is_hex(#[trigger] rev[j]) by {
                assert(digits.contains(rev[j]));
            }
        }
        if 0 <= i < rev.len() && !digits.contains(rev[i]) {
            assert(!is_hex(rev[i]));
        }
    }
}

// ---------------------------------------------------------------------------
// What is written
// ---------------------------------------------------------------------------

/// The line of a cell in the text table.
pub open spec fn line_of(n: Seq<char>, c: Cell) -> Seq<char> {
    "    "@ + (if c.differs {
        "≠"@
    } else {
        "="@
    }) + " "@ + n + ": "@ + c.value@ + " ("@ + c.confidence.shown@ + ")\n"@
}

/// The text names the hub and shows every row with its key and the hub's value,
/// every cell of it, marked as a real override or a restatement, and every spoke's
/// setting of every drifting key, marked where it is a conflict.
pub proof fn the_text_shows_every_cell(m: OverrideMatrix, i: int, j: int, k: int)
    ensures
        contains(text_of(m), "(hub: "@ + m.hub@ + ", "@),
        0 <= i < m.rows@.len() ==> contains(
            text_of(m),
            "\n  "@ + m.rows@[i].hub_key@ + " = "@ + m.rows@[i].hub_value@ + "\n"@,
        ),
        0 <= i < m.rows@.len() && 0 <= j < m.spokes@.len() && m.rows@[i].cells@.contains_key(
            m.spokes@[j]@,
        ) ==> contains(text_of(m), line_of(m.spokes@[j]@, m.rows@[i].cells@[m.spokes@[j]@])),
        0 <= k < m.drift@.len() ==> contains(text_of(m), "\n    "@ + m.drift@[k].key@ + "\n"@),
        0 <= k < m.drift@.len() && 0 <= j < m.drift@[k].cells.pairs().len() ==> contains(
            text_of(m),
            "      "@ + m.drift@[k].cells.pairs()[j].0 + ": "@ + m.drift@[k].cells.pairs()[j].1.value@
                + (if m.drift@[k].cells.pairs()[j].1.conflict {
                "  (conflict)"@
            } else {
                ""@
            }) + "\n"@,
        ),
{
    let spokes = views(m.spokes@);
    let head = "cross-repo config overrides "@;
    let top = "cross-repo config overrides (hub: "@ + m.hub@ + ", "@ + decimal_of(m.spokes@.len())
        + " spoke(s))\n"@;
    let rows = over(m.rows@, row_text(spokes));
    let drift = drift_text(m.drift@);
    let none = Seq::<char>::empty();
    reveal_strlit("cross-repo config overrides (hub: ");
    reveal_strlit("cross-repo config overrides ");
    reveal_strlit("(hub: ");
    assert("cross-repo config overrides (hub: "@ =~= head + "(hub: "@);
    holds_its_middle(
        head,
        "(hub: "@ + m.hub@ + ", "@,
        decimal_of(m.spokes@.len()) + " spoke(s))\n"@ + pins_text(m) + rows + drift,
    );
    assert(text_of(m) =~= head + ("(hub: "@ + m.hub@ + ", "@) + (decimal_of(m.spokes@.len())
        + " spoke(s))\n"@ + pins_text(m) + rows + drift));
    if 0 <= i < m.rows@.len() {
        let r = m.rows@[i];
        let whole = row_text(spokes)(r);
        let first = "\n  "@ + r.hub_key@ + " = "@ + r.hub_value@ + "\n"@;
        let cells = over(spokes, cell_line(r.cells@));
        over_contains(m.rows@, row_text(spokes), i);
        holds_its_middle(top + pins_text(m), rows, drift);
        contains_within(text_of(m), rows, whole);
        assert(none + first + cells =~= whole);
        holds_its_middle(none, first, cells);
        contains_within(text_of(m), whole, first);
        if 0 <= j < m.spokes@.len() && r.cells@.contains_key(m.spokes@[j]@) {
            assert(spokes[j] == m.spokes@[j]@);
            over_contains(spokes, cell_line(r.cells@), j);
            assert(first + cells + none =~= whole);
            holds_its_middle(first, cells, none);
            contains_within(text_of(m), whole, cells);
            contains_within(text_of(m), cells, line_of(spokes[j], r.cells@[spokes[j]]));
        }
    }
    if 0 <= k < m.drift@.len() {
        let d = m.drift@[k];
        let list = over(m.drift@, drift_row_text());
        let title = "\n  drift — "@ + decimal_of(m.drift@.len()) + " orphan key(s):\n"@;
        let whole = drift_row_text()(d);
        let first = "\n    "@ + d.key@ + "\n"@;
        let lines = over(d.cells.pairs(), drift_line());
        over_contains(m.drift@, drift_row_text(), k);
        assert(title + list + none =~= drift);
        holds_its_middle(title, list, none);
        assert(top + pins_text(m) + rows + drift + none =~= text_of(m));
        holds_its_middle(top + pins_text(m) + rows, drift, none);
        contains_within(text_of(m), drift, list);
        contains_within(text_of(m), list, whole);
        assert(none + first + lines =~= whole);
        holds_its_middle(none, first, lines);
        contains_within(text_of(m), whole, first);
        if 0 <= j < d.cells.pairs().len() {
            over_contains(d.cells.pairs(), drift_line(), j);
            assert(first + lines + none =~= whole);
            holds_its_middle(first, lines, none);
            contains_within(text_of(m), whole, lines);
            contains_within(text_of(m), lines, drift_line()(d.cells.pairs()[j]));
        }
    }
}

/// The cell of a row as the page writes it.
pub open spec fn td_of(c: Cell) -> Seq<char> {
    "<td class=\""@ + (if c.differs {
        "cell over"@
    } else {
        "cell same"@
    }) + "\"><code>"@ + escaped(c.value@) + "</code>"@
}

/// The page shows every cell of every row, marked as a real override or a
/// restatement, and every cell of every drift row, marked where it is a conflict.
pub proof fn the_page_shows_every_cell(m: OverrideMatrix, i: int, j: int, k: int)
    ensures
        0 <= i < m.rows@.len() && 0 <= j < m.spokes@.len() && m.rows@[i].cells@.contains_key(
            m.spokes@[j]@,
        ) ==> contains(html_of(m), td_of(m.rows@[i].cells@[m.spokes@[j]@])),
        0 <= i < m.rows@.len() ==> contains(
            html_of(m),
            "<code>"@ + escaped(m.rows@[i].hub_key@) + "</code>"@,
        ),
        0 <= k < m.drift@.len() ==> contains(
            html_of(m),
            "<code>"@ + escaped(m.drift@[k].key@) + "</code>"@,
        ),
        0 <= k < m.drift@.len() && 0 <= j < m.spokes@.len() && m.drift@[k].cells@.contains_key(
            m.spokes@[j]@,
        ) ==> contains(
            html_of(m),
            (if m.drift@[k].cells@[m.spokes@[j]@].conflict {
                "<td class=\"cell over conflict\" title=\"conflict: this deploy sets the key to multiple values\"><code>"@
            } else {
                "<td class=\"cell over\"><code>"@
            }) + escaped(m.drift@[k].cells@[m.spokes@[j]@].value@) + "</code>"@,
        ),
{
    let spokes = views(m.spokes@);
    let none = Seq::<char>::empty();
    let body = page_body(m);
    let open = PAGE_OPEN@ + escaped(m.hub@) + "</title><style>"@ + CSS@ + PAGE_MAIN@ + escaped(m.hub@)
        + "</strong> · "@ + decimal_of(m.spokes@.len()) + " spoke(s) · ADR-0009</p>"@;
    holds_its_middle(open, body, "</main></body></html>"@);
    let lead = "<table class=\"matrix\"><thead><tr>"@ + head_row(m) + "</tr></thead><tbody>"@;
    let rows = over(m.rows@, body_row(spokes));
    if 0 <= i < m.rows@.len() {
        let r = m.rows@[i];
        rows_are_shown(m, i, j);
        assert(lead + rows + (LEGEND@ + drift_table(m)) =~= body);
        holds_its_middle(lead, rows, LEGEND@ + drift_table(m));
        contains_within(html_of(m), body, rows);
        contains_within(html_of(m), rows, "<code>"@ + escaped(r.hub_key@) + "</code>"@);
        if 0 <= j < m.spokes@.len() && r.cells@.contains_key(m.spokes@[j]@) {
            contains_within(html_of(m), rows, td_of(r.cells@[m.spokes@[j]@]));
        }
    }
    if 0 <= k < m.drift@.len() {
        drift_rows_are_shown(m, j, k);
        let table = drift_table(m);
        assert(lead + rows + LEGEND@ + table + none =~= body);
        holds_its_middle(lead + rows + LEGEND@, table, none);
        contains_within(html_of(m), body, table);
        let d = m.drift@[k];
        contains_within(html_of(m), table, "<code>"@ + escaped(d.key@) + "</code>"@);
        if 0 <= j < m.spokes@.len() && d.cells@.contains_key(m.spokes@[j]@) {
            contains_within(html_of(m), table, drift_td(d.cells@[m.spokes@[j]@]));
        }
    }
}

proof fn a_cell_begins_with_its_value(c: Cell) -> (rest: Seq<char>)
    ensures
        "<td class=\""@ + (if c.differs {
            "cell over"@
        } else {
            "cell same"@
        }) + "\"><code>"@ + escaped(c.value@)
            + "</code><span class=\"conf\" title=\"confidence\">"@ + escaped(c.confidence.shown@)
            + "</span></td>"@ == td_of(c) + rest,
{
    let rest = "<span class=\"conf\" title=\"confidence\">"@ + escaped(c.confidence.shown@)
        + "</span></td>"@;
    reveal_strlit("</code><span class=\"conf\" title=\"confidence\">");
    reveal_strlit("<span class=\"conf\" title=\"confidence\">");
    reveal_strlit("</code>");
    assert("</code><span class=\"conf\" title=\"confidence\">"@ =~= "</code>"@
        + "<span class=\"conf\" title=\"confidence\">"@);
    let front = "<td class=\""@ + (if c.differs {
        "cell over"@
    } else {
        "cell same"@
    }) + "\"><code>"@ + escaped(c.value@);
    assert(front + ("</code>"@ + "<span class=\"conf\" title=\"confidence\">"@) + escaped(
        c.confidence.shown@,
    ) + "</span></td>"@ =~= front + "</code>"@ + rest);
    rest
}

proof fn rows_are_shown(m: OverrideMatrix, i: int, j: int)
    requires
        0 <= i < m.rows@.len(),
    ensures
        contains(
            over(m.rows@, body_row(views(m.spokes@))),
            "<code>"@ + escaped(m.rows@[i].hub_key@) + "</code>"@,
        ),
        0 <= j < m.spokes@.len() && m.rows@[i].cells@.contains_key(m.spokes@[j]@) ==> contains(
            over(m.rows@, body_row(views(m.spokes@))),
            td_of(m.rows@[i].cells@[m.spokes@[j]@]),
        ),
{
    let spokes = views(m.spokes@);
    let none = Seq::<char>::empty();
    let r = m.rows@[i];
    let rows = over(m.rows@, body_row(spokes));
    let whole = body_row(spokes)(r);
    over_contains(m.rows@, body_row(spokes), i);
    let lead = "<tr><th scope=\"row\">"@;
    let name = "<code>"@ + escaped(r.hub_key@) + "</code>"@;
    let cells = over(spokes, body_cell(r.cells@));
    let mid = "</th><td class=\"hub\"><code>"@ + escaped(r.hub_value@) + "</code></td>"@;
    reveal_strlit("<tr><th scope=\"row\"><code>");
    reveal_strlit("<tr><th scope=\"row\">");
    reveal_strlit("<code>");
    reveal_strlit("</code></th><td class=\"hub\"><code>");
    reveal_strlit("</th><td class=\"hub\"><code>");
    reveal_strlit("</code>");
    assert("<tr><th scope=\"row\"><code>"@ =~= lead + "<code>"@);
    assert("</code></th><td class=\"hub\"><code>"@ =~= "</code>"@
        + "</th><td class=\"hub\"><code>"@);
    assert(lead + name + (mid + cells + "</tr>"@) =~= whole);
    holds_its_middle(lead, name, mid + cells + "</tr>"@);
    contains_within(rows, whole, name);
    if 0 <= j < m.spokes@.len() && r.cells@.contains_key(m.spokes@[j]@) {
        assert(spokes[j] == m.spokes@[j]@);
        let c = r.cells@[spokes[j]];
        over_contains(spokes, body_cell(r.cells@), j);
        assert(lead + name + mid + cells + "</tr>"@ =~= whole);
        holds_its_middle(lead + name + mid, cells, "</tr>"@);
        contains_within(rows, whole, cells);
        let cell = body_cell(r.cells@)(spokes[j]);
        contains_within(rows, cells, cell);
        let rest = a_cell_begins_with_its_value(c);
        assert(none + td_of(c) + rest =~= cell);
        holds_its_middle(none, td_of(c), rest);
        contains_within(rows, cell, td_of(c));
    }
}

spec fn drift_td(c: DriftCell) -> Seq<char> {
    (if c.conflict {
        "<td class=\"cell over conflict\" title=\"conflict: this deploy sets the key to multiple values\"><code>"@
    } else {
        "<td class=\"cell over\"><code>"@
    }) + escaped(c.value@) + "</code>"@
}

proof fn drift_row_parts(d: Drift, spokes: Seq<Seq<char>>)
    ensures
        drift_body_row(spokes)(d) == "<tr><td>"@ + ("<code>"@ + escaped(d.key@) + "</code>"@) + (
        "</td>"@ + over(spokes, drift_body_cell(d.cells@)) + "</tr>"@),
{
    reveal_strlit("<tr><td><code>");
    reveal_strlit("<tr><td>");
    reveal_strlit("<code>");
    reveal_strlit("</code></td>");
    reveal_strlit("</code>");
    reveal_strlit("</td>");
    assert("<tr><td><code>"@ =~= "<tr><td>"@ + "<code>"@);
    assert("</code></td>"@ =~= "</code>"@ + "</td>"@);
    let k = escaped(d.key@);
    let cells = over(spokes, drift_body_cell(d.cells@));
    assert("<tr><td>"@ + "<code>"@ + k + ("</code>"@ + "</td>"@) + cells + "</tr>"@ =~= "<tr><td>"@
        + ("<code>"@ + k + "</code>"@) + ("</td>"@ + cells + "</tr>"@));
}

proof fn drift_cell_parts(cells: Map<Seq<char>, DriftCell>, n: Seq<char>)
    requires
        cells.contains_key(n),
    ensures
        drift_body_cell(cells)(n) == drift_td(cells[n]) + "</td>"@,
{
    reveal_strlit("</code></td>");
    reveal_strlit("</code>");
    reveal_strlit("</td>");
    assert("</code></td>"@ =~= "</code>"@ + "</td>"@);
    let front = (if cells[n].conflict {
        "<td class=\"cell over conflict\" title=\"conflict: this deploy sets the key to multiple values\"><code>"@
    } else {
        "<td class=\"cell over\"><code>"@
    }) + escaped(cells[n].value@);
    assert(front + ("</code>"@ + "</td>"@) =~= front + "</code>"@ + "</td>"@);
}

proof fn drift_rows_are_shown(m: OverrideMatrix, j: int, k: int)
    requires
        0 <= k < m.drift@.len(),
    ensures
        contains(drift_table(m), "<code>"@ + escaped(m.drift@[k].key@) + "</code>"@),
        0 <= j < m.spokes@.len() && m.drift@[k].cells@.contains_key(m.spokes@[j]@) ==> contains(
            drift_table(m),
            drift_td(m.drift@[k].cells@[m.spokes@[j]@]),
        ),
{
    let spokes = views(m.spokes@);
    let none = Seq::<char>::empty();
    let d = m.drift@[k];
    let table = drift_table(m);
    let rows = over(m.drift@, drift_body_row(spokes));
    let lead = "<h2>Drift — "@ + decimal_of(m.drift@.len()) + DRIFT_INTRO@ + (
    "<th scope=\"col\">key</th>"@ + over(spokes, drift_head_cell())) + "</tr></thead><tbody>"@;
    holds_its_middle(lead, rows, "</tbody></table>"@);
    let whole = drift_body_row(spokes)(d);
    over_contains(m.drift@, drift_body_row(spokes), k);
    contains_within(table, rows, whole);
    let name = "<code>"@ + escaped(d.key@) + "</code>"@;
    let cells = over(spokes, drift_body_cell(d.cells@));
    drift_row_parts(d, spokes);
    holds_its_middle("<tr><td>"@, name, "</td>"@ + cells + "</tr>"@);
    contains_within(table, whole, name);
    if 0 <= j < m.spokes@.len() && d.cells@.contains_key(m.spokes@[j]@) {
        assert(spokes[j] == m.spokes@[j]@);
        over_contains(spokes, drift_body_cell(d.cells@), j);
        let lead = "<tr><td>"@ + name + "</td>"@;
        assert(lead + cells + "</tr>"@ =~= "<tr><td>"@ + name + ("</td>"@ + cells + "</tr>"@));
        holds_its_middle(lead, cells, "</tr>"@);
        contains_within(table, whole, cells);
        let cell = drift_body_cell(d.cells@)(spokes[j]);
        contains_within(table, cells, cell);
        let td = drift_td(d.cells@[spokes[j]]);
        drift_cell_parts(d.cells@, spokes[j]);
        assert(none + td + "</td>"@ =~= td + "</td>"@);
        holds_its_middle(none, td, "</td>"@);
        contains_within(table, cell, td);
    }
}

/// Where pins were not asked for, they are not shown: what spokes pin changes
/// neither the text nor the page. Where they were, each spoke's line says which
/// version it was held against, and one without a pin is named too.
pub proof fn pins_show_where_they_are_asked_for(a: OverrideMatrix, b: OverrideMatrix, j: int)
    requires
        a.hub == b.hub,
        a.spokes == b.spokes,
        a.rows == b.rows,
        a.drift == b.drift,
        a.pinned == b.pinned,
    ensures
        !a.pinned ==> text_of(a) == text_of(b),
        !a.pinned ==> head_row(a) == head_row(b),
        a.pinned && 0 <= j < a.spokes@.len() ==> contains(
            text_of(a),
            "    "@ + a.spokes@[j]@ + " @ "@ + (if a.pins@.contains_key(a.spokes@[j]@) {
                short_rev_of(a.pins@[a.spokes@[j]@].rev@)
            } else {
                "HEAD (no pin detected)\n"@
            }),
        ),
{
    let spokes = views(a.spokes@);
    if !a.pinned {
        assert(text_of(a) == text_of(b));
        same_heads(a, b, spokes);
    } else if 0 <= j < a.spokes@.len() {
        let n = a.spokes@[j]@;
        assert(spokes[j] == n);
        let none = Seq::<char>::empty();
        let lines = over(spokes, pin_line(a.pins@));
        over_contains(spokes, pin_line(a.pins@), j);
        let intro = "  resolved per spoke against the hub version each pins ("@ + decimal_of(
            a.pins@.dom().len(),
        ) + " of "@ + decimal_of(a.spokes@.len()) + " pinned one):\n"@;
        let top = "cross-repo config overrides (hub: "@ + a.hub@ + ", "@ + decimal_of(a.spokes@.len())
            + " spoke(s))\n"@;
        let rest = over(a.rows@, row_text(spokes)) + drift_text(a.drift@);
        assert(top + intro + lines + rest =~= text_of(a));
        holds_its_middle(top + intro, lines, rest);
        let line = pin_line(a.pins@)(n);
        contains_within(text_of(a), lines, line);
        reveal_strlit(" @ HEAD (no pin detected)\n");
        reveal_strlit(" @ ");
        reveal_strlit("HEAD (no pin detected)\n");
        assert(" @ HEAD (no pin detected)\n"@ =~= " @ "@ + "HEAD (no pin detected)\n"@);
        if a.pins@.contains_key(n) {
            let part = "    "@ + n + " @ "@ + short_rev_of(a.pins@[n].rev@);
            let tail = via_note(a.pins@[n].via) + "\n"@;
            assert(none + part + tail =~= line);
            holds_its_middle(none, part, tail);
            contains_within(text_of(a), line, part);
        } else {
            let part = "    "@ + n + " @ "@ + "HEAD (no pin detected)\n"@;
            assert(part =~= line);
        }
    }
}

proof fn same_heads(a: OverrideMatrix, b: OverrideMatrix, spokes: Seq<Seq<char>>)
    requires
        !a.pinned,
        !b.pinned,
        views(a.spokes@) == views(b.spokes@),
    ensures
        over(spokes, head_cell(a)) == over(spokes, head_cell(b)),
    decreases spokes.len(),
{
    if spokes.len() > 0 {
        same_heads(a, b, spokes.drop_last());
        assert(head_cell(a)(spokes.last()) == head_cell(b)(spokes.last()));
    }
}

} // verus!
