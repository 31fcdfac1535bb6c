//! What holds of every review of a change.
use vstd::prelude::*;

use crate::graph::{Node, NodeClass};
use crate::review::{
    calling, closes_at, defined_in, drift_view, drifting, file_is, governing, impacted_view,
    in_paths, into, keys_of, looked_at, names_path, opens_at, out_of, outside, owed, pairs_of,
    paths_of, range_of, relating, report_is, retried, run_from, symbol, symbol_is, touches,
    ChangeStatus, ChangedFile, ContextEdge, FileReview, NodeContext, ReviewReport, Snapshot,
    SymbolReview, Violation, REVIEW_SCHEMA,
};
use crate::seqs::{picked, picked_count, picked_facts};
use crate::text::{before_first, first_at, occurs_at, views};

verus! {

// ---------------------------------------------------------------------------
// Files
// ---------------------------------------------------------------------------

/// The symbol shows this node.
pub open spec fn shows(s: SymbolReview, n: Node) -> bool {
    s.key@ == n.key@ && s.name@ == n.name@ && s.kind@ == n.kind@
}

/// Every symbol of a file that is still there is reviewed, and every marker of it
/// that counts is named, each as often as the file has it, however the file came
/// to change.
pub proof fn every_node_of_a_file_is_reviewed(
    r: FileReview,
    f: ChangedFile,
    store: Snapshot,
    retained: Seq<Seq<char>>,
)
    requires
        file_is(r, f, store, retained),
        f.status != ChangeStatus::Deleted,
    ensures
        forall|i: int|
            #![trigger f.nodes@[i]]
            0 <= i < f.nodes@.len() && f.nodes@[i].class == NodeClass::Other ==> exists|k: int|
                0 <= k < r.symbols@.len() && shows(#[trigger] r.symbols@[k], f.nodes@[i]),
        forall|i: int|
            #![trigger f.nodes@[i]]
            0 <= i < f.nodes@.len() && f.nodes@[i].class == NodeClass::Marker && retained.contains(
                f.nodes@[i].key@,
            ) ==> views(r.debt@).contains(f.nodes@[i].name@),
        r.symbols@.len() == f.nodes@.filter(|n: Node| n.class == NodeClass::Other).len(),
        r.debt@.len() == f.nodes@.filter(
            |n: Node| n.class == NodeClass::Marker && retained.contains(n.key@),
        ).len(),
{
    let nodes = f.nodes@;
    let symbols = picked(nodes, symbol());
    let debt = picked(nodes, owed(retained));
    picked_facts(nodes, symbol());
    picked_facts(nodes, owed(retained));
    picked_count(nodes, symbol(), |n: Node| n.class == NodeClass::Other);
    picked_count(
        nodes,
        owed(retained),
        |n: Node| n.class == NodeClass::Marker && retained.contains(n.key@),
    );
    assert(views(r.debt@).len() == r.debt@.len());
    assert forall|i: int|
        #![trigger nodes[i]]
        0 <= i < nodes.len() && nodes[i].class == NodeClass::Other implies exists|k: int|
        0 <= k < r.symbols@.len() && shows(#[trigger] r.symbols@[k], nodes[i]) by {
        assert(symbol()(nodes[i]) == Some(nodes[i]));
        assert(symbols.contains(nodes[i]));
        let k = choose|k: int| 0 <= k < symbols.len() && symbols[k] == nodes[i];
        assert(shows(r.symbols@[k], nodes[i]));
    }
    assert forall|i: int|
        #![trigger nodes[i]]
        0 <= i < nodes.len() && nodes[i].class == NodeClass::Marker && retained.contains(
            nodes[i].key@,
        ) implies views(r.debt@).contains(nodes[i].name@) by {
        assert(owed(retained)(nodes[i]) == Some(nodes[i].name@));
    }
}

/// The symbol shows a node of the file that is neither the file nor a marker.
pub open spec fn is_symbol_of(s: SymbolReview, f: ChangedFile) -> bool {
    exists|i: int|
        0 <= i < f.nodes@.len() && (#[trigger] f.nodes@[i]).class == NodeClass::Other && shows(
            s,
            f.nodes@[i],
        )
}

/// The name is that of a marker in the file that counts.
pub open spec fn is_marker_of(name: Seq<char>, f: ChangedFile, retained: Seq<Seq<char>>) -> bool {
    exists|i: int|
        0 <= i < f.nodes@.len() && (#[trigger] f.nodes@[i]).class == NodeClass::Marker
            && f.nodes@[i].name@ == name && retained.contains(f.nodes@[i].key@)
}

/// What is reviewed of a file is its own: each symbol is one of its nodes that is
/// neither the file nor a marker, with the edges that the graph has of it; each
/// marker is one of its markers that count. Nothing is reviewed of a deleted one.
pub proof fn only_a_files_own_nodes_are_reviewed(
    r: FileReview,
    f: ChangedFile,
    store: Snapshot,
    retained: Seq<Seq<char>>,
)
    requires
        file_is(r, f, store, retained),
    ensures
        f.status == ChangeStatus::Deleted ==> r.symbols@.len() == 0 && r.debt@.len() == 0,
        forall|k: int| 0 <= k < r.symbols@.len() ==> is_symbol_of(#[trigger] r.symbols@[k], f),
        forall|k: int|
            0 <= k < r.debt@.len() ==> is_marker_of((#[trigger] r.debt@[k])@, f, retained),
        r.path@ == f.path@,
        crate::text::opt_view(r.diff) == crate::text::opt_view(f.diff),
{
    let nodes = looked_at(f);
    let symbols = picked(nodes, symbol());
    picked_facts(nodes, symbol());
    picked_facts(nodes, owed(retained));
    assert(views(r.debt@).len() == r.debt@.len());
    assert forall|k: int| 0 <= k < r.symbols@.len() implies is_symbol_of(#[trigger] r.symbols@[k], f) by {
        assert(symbols.contains(symbols[k]));
        let i = choose|i: int|
            0 <= i < nodes.len() && symbol()(#[trigger] nodes[i]) == Some(symbols[k]);
        assert(f.nodes@[i] == nodes[i]);
        assert(shows(r.symbols@[k], f.nodes@[i]));
    }
    assert forall|k: int| 0 <= k < r.debt@.len() implies is_marker_of(
        (#[trigger] r.debt@[k])@,
        f,
        retained,
    ) by {
        assert(views(r.debt@)[k] == r.debt@[k]@);
        assert(views(r.debt@).contains(r.debt@[k]@));
        let i = choose|i: int|
            0 <= i < nodes.len() && owed(retained)(#[trigger] nodes[i]) == Some(r.debt@[k]@);
        assert(f.nodes@[i] == nodes[i]);
    }
}

/// Whether a file was added or modified makes no difference to what is reviewed
/// of it: the same nodes give the same symbols and the same markers.
pub proof fn an_added_file_is_reviewed_like_a_modified_one(
    a: FileReview,
    b: FileReview,
    f: ChangedFile,
    g: ChangedFile,
    store: Snapshot,
    retained: Seq<Seq<char>>,
)
    requires
        file_is(a, f, store, retained),
        file_is(b, g, store, retained),
        f.nodes@ == g.nodes@,
        f.status != ChangeStatus::Deleted,
        g.status != ChangeStatus::Deleted,
    ensures
        a.symbols@.len() == b.symbols@.len(),
        forall|k: int|
            #![trigger a.symbols@[k]]
            0 <= k < a.symbols@.len() ==> a.symbols@[k].key@ == b.symbols@[k].key@ && views(
                a.symbols@[k].callers@,
            ) == views(b.symbols@[k].callers@) && views(a.symbols@[k].callees@) == views(
                b.symbols@[k].callees@,
            ) && views(a.symbols@[k].governed_by@) == views(b.symbols@[k].governed_by@),
        views(a.debt@) == views(b.debt@),
{
    assert forall|k: int|
        #![trigger a.symbols@[k]]
        0 <= k < a.symbols@.len() implies a.symbols@[k].key@ == b.symbols@[k].key@ && views(
        a.symbols@[k].callers@,
    ) == views(b.symbols@[k].callers@) && views(a.symbols@[k].callees@) == views(
        b.symbols@[k].callees@,
    ) && views(a.symbols@[k].governed_by@) == views(b.symbols@[k].governed_by@) by {
        assert(b.symbols@[k].key@ == picked(f.nodes@, symbol())[k].key@);
    }
}

/// The key of every symbol of every file that is still there is a changed key,
/// however the file came to change, and no other key is.
pub proof fn every_symbol_is_a_changed_key(changed: Seq<ChangedFile>, k: Seq<char>)
    ensures
        forall|i: int, j: int|
            #![trigger changed[i].nodes@[j]]
            0 <= i < changed.len() && changed[i].status != ChangeStatus::Deleted && 0 <= j
                < changed[i].nodes@.len() && changed[i].nodes@[j].class == NodeClass::Other
                ==> keys_of(changed).contains(changed[i].nodes@[j].key@),
        keys_of(changed).contains(k) ==> exists|i: int, j: int|
            #![trigger changed[i].nodes@[j]]
            0 <= i < changed.len() && changed[i].status != ChangeStatus::Deleted && 0 <= j
                < changed[i].nodes@.len() && changed[i].nodes@[j].class == NodeClass::Other
                && changed[i].nodes@[j].key@ == k,
{
    assert forall|i: int, j: int|
        #![trigger changed[i].nodes@[j]]
        0 <= i < changed.len() && changed[i].status != ChangeStatus::Deleted && 0 <= j
            < changed[i].nodes@.len() && changed[i].nodes@[j].class == NodeClass::Other implies keys_of(
        changed,
    ).contains(changed[i].nodes@[j].key@) by {
        crate::review::every_changed_key_is_reviewed(changed, changed[i].nodes@[j].key@);
        assert(looked_at(changed[i])[j] == changed[i].nodes@[j]);
    }
    crate::review::every_changed_key_is_reviewed(changed, k);
    if keys_of(changed).contains(k) {
        let (i, j) = choose|i: int, j: int|
            0 <= i < changed.len() && 0 <= j < looked_at(changed[i]).len() && (#[trigger] looked_at(
                changed[i],
            )[j]).class == NodeClass::Other && looked_at(changed[i])[j].key@ == k;
        assert(changed[i].nodes@[j].key@ == k);
    }
}

// ---------------------------------------------------------------------------
// Symbols
// ---------------------------------------------------------------------------

/// The callers of a symbol are the other ends of the calls into it, its callees
/// those of the calls out of it; it is governed by the other ends of the authored
/// edges into it; and the nodes like it are the other ends of the similarities on
/// either side. Each edge counts once, whoever wrote a call and whatever kind an
/// authored edge is.
pub proof fn a_symbol_lists_its_edges(r: SymbolReview, node: Node, ctx: NodeContext)
    requires
        symbol_is(r, node, Some(ctx)),
    ensures
        forall|i: int|
            #![trigger ctx.incoming@[i]]
            0 <= i < ctx.incoming@.len() ==> {
                let e = ctx.incoming@[i];
                &&& e.kind@ == "calls"@ ==> views(r.callers@).contains(e.node@)
                &&& e.provenance@ == "authored"@ ==> views(r.governed_by@).contains(e.node@)
                &&& e.kind@ == "related"@ ==> pairs_of(r.related@).contains(
                    (e.node@, e.confidence),
                )
            },
        forall|i: int|
            #![trigger ctx.outgoing@[i]]
            0 <= i < ctx.outgoing@.len() ==> {
                let e = ctx.outgoing@[i];
                &&& e.kind@ == "calls"@ ==> views(r.callees@).contains(e.node@)
                &&& e.kind@ == "related"@ ==> pairs_of(r.related@).contains(
                    (e.node@, e.confidence),
                )
            },
        r.callers@.len() == ctx.incoming@.filter(|e: ContextEdge| e.kind@ == "calls"@).len(),
        r.callees@.len() == ctx.outgoing@.filter(|e: ContextEdge| e.kind@ == "calls"@).len(),
        r.governed_by@.len() == ctx.incoming@.filter(
            |e: ContextEdge| e.provenance@ == "authored"@,
        ).len(),
        r.related@.len() == ctx.incoming@.filter(|e: ContextEdge| e.kind@ == "related"@).len()
            + ctx.outgoing@.filter(|e: ContextEdge| e.kind@ == "related"@).len(),
{
    let a = ctx.incoming@;
    let b = ctx.outgoing@;
    picked_facts(a, calling());
    picked_facts(b, calling());
    picked_facts(a, governing());
    picked_facts(a, relating());
    picked_facts(b, relating());
    picked_count(a, calling(), |e: ContextEdge| e.kind@ == "calls"@);
    picked_count(b, calling(), |e: ContextEdge| e.kind@ == "calls"@);
    picked_count(a, governing(), |e: ContextEdge| e.provenance@ == "authored"@);
    picked_count(a, relating(), |e: ContextEdge| e.kind@ == "related"@);
    picked_count(b, relating(), |e: ContextEdge| e.kind@ == "related"@);
    assert(views(r.callers@).len() == r.callers@.len());
    assert(views(r.callees@).len() == r.callees@.len());
    assert(views(r.governed_by@).len() == r.governed_by@.len());
    assert(pairs_of(r.related@).len() == r.related@.len());
    let x = picked(a, relating());
    let y = picked(b, relating());
    assert forall|i: int| #![trigger a[i]] 0 <= i < a.len() implies {
        let e = a[i];
        &&& e.kind@ == "calls"@ ==> views(r.callers@).contains(e.node@)
        &&& e.provenance@ == "authored"@ ==> views(r.governed_by@).contains(e.node@)
        &&& e.kind@ == "related"@ ==> pairs_of(r.related@).contains((e.node@, e.confidence))
    } by {
        let e = a[i];
        if e.kind@ == "calls"@ {
            assert(calling()(e) == Some(e.node@));
        }
        if e.provenance@ == "authored"@ {
            assert(governing()(e) == Some(e.node@));
        }
        if e.kind@ == "related"@ {
            assert(relating()(e) == Some((e.node@, e.confidence)));
            assert(x.contains((e.node@, e.confidence)));
            let k = choose|k: int| 0 <= k < x.len() && x[k] == (e.node@, e.confidence);
            assert((x + y)[k] == x[k]);
        }
    }
    assert forall|i: int| #![trigger b[i]] 0 <= i < b.len() implies {
        let e = b[i];
        &&& e.kind@ == "calls"@ ==> views(r.callees@).contains(e.node@)
        &&& e.kind@ == "related"@ ==> pairs_of(r.related@).contains((e.node@, e.confidence))
    } by {
        let e = b[i];
        if e.kind@ == "calls"@ {
            assert(calling()(e) == Some(e.node@));
        }
        if e.kind@ == "related"@ {
            assert(relating()(e) == Some((e.node@, e.confidence)));
            assert(y.contains((e.node@, e.confidence)));
            let k = choose|k: int| 0 <= k < y.len() && y[k] == (e.node@, e.confidence);
            assert((x + y)[x.len() + k] == y[k]);
        }
    }
}

/// A caller that is listed made a call, and a governor wrote an edge: nothing is
/// listed that is not there, and without a context nothing is.
pub proof fn a_symbol_lists_no_other_edges(r: SymbolReview, node: Node, ctx: Option<NodeContext>, n: Seq<char>)
    requires
        symbol_is(r, node, ctx),
    ensures
        ctx is None ==> r.callers@.len() == 0 && r.callees@.len() == 0 && r.governed_by@.len() == 0
            && r.related@.len() == 0,
        views(r.callers@).contains(n) ==> ctx is Some && exists|i: int|
            0 <= i < ctx->0.incoming@.len() && (#[trigger] ctx->0.incoming@[i]).kind@ == "calls"@
                && ctx->0.incoming@[i].node@ == n,
        views(r.callees@).contains(n) ==> ctx is Some && exists|i: int|
            0 <= i < ctx->0.outgoing@.len() && (#[trigger] ctx->0.outgoing@[i]).kind@ == "calls"@
                && ctx->0.outgoing@[i].node@ == n,
        views(r.governed_by@).contains(n) ==> ctx is Some && exists|i: int|
            0 <= i < ctx->0.incoming@.len() && (#[trigger] ctx->0.incoming@[i]).provenance@
                == "authored"@ && ctx->0.incoming@[i].node@ == n,
{
    let a = into(ctx);
    let b = out_of(ctx);
    picked_facts(a, calling());
    picked_facts(b, calling());
    picked_facts(a, governing());
    picked_facts(a, relating());
    picked_facts(b, relating());
    assert(views(r.callers@).len() == r.callers@.len());
    assert(views(r.callees@).len() == r.callees@.len());
    assert(views(r.governed_by@).len() == r.governed_by@.len());
    assert(pairs_of(r.related@).len() == r.related@.len());
    if views(r.callers@).contains(n) {
        let i = choose|i: int| 0 <= i < a.len() && calling()(#[trigger] a[i]) == Some(n);
        assert(ctx->0.incoming@[i].node@ == n);
    }
    if views(r.callees@).contains(n) {
        let i = choose|i: int| 0 <= i < b.len() && calling()(#[trigger] b[i]) == Some(n);
        assert(ctx->0.outgoing@[i].node@ == n);
    }
    if views(r.governed_by@).contains(n) {
        let i = choose|i: int| 0 <= i < a.len() && governing()(#[trigger] a[i]) == Some(n);
        assert(ctx->0.incoming@[i].node@ == n);
    }
}

// ---------------------------------------------------------------------------
// Drift and impact
// ---------------------------------------------------------------------------

/// What stands before the first colon and space of a message is its subject.
pub proof fn a_messages_subject_comes_first(key: Seq<char>, rest: Seq<char>)
    requires
        forall|i: int| !occurs_at(key + ": "@, ": "@, i) || i >= key.len(),
    ensures
        before_first(key + ": "@ + rest, ": "@) == Some(key),
{
    reveal_strlit(": ");
    let p = ": "@;
    let s = key + p + rest;
    let n = key.len() as int;
    assert(s.subrange(n, n + 2) =~= p);
    assert forall|j: int| 0 <= j < n implies !occurs_at(s, p, j) by {
        if occurs_at(s, p, j) {
            assert((key + p).subrange(j, j + 2) =~= s.subrange(j, j + 2));
            assert(occurs_at(key + p, p, j));
        }
    }
    assert(first_at(s, p, 0, n));
    let i = choose|i: int| first_at(s, p, 0, i);
    if i < n {
        assert(!occurs_at(s, p, i));
    } else if n < i {
        assert(!occurs_at(s, p, n));
    }
    assert(s.take(n) =~= key);
}

/// A violation whose subject is a node in a changed file belongs to the change,
/// whatever path its message names.
pub proof fn a_subject_in_a_changed_file_is_drift(
    key: Seq<char>,
    rest: Seq<char>,
    nodes: Map<Seq<char>, Node>,
    changed: Seq<ChangedFile>,
    i: int,
)
    requires
        forall|j: int| !occurs_at(key + ": "@, ": "@, j) || j >= key.len(),
        nodes.contains_key(key),
        0 <= i < changed.len(),
        nodes[key].path is Some,
        nodes[key].path->0@ == changed[i].path@,
    ensures
        touches(key + ": "@ + rest, nodes, paths_of(changed)),
{
    a_messages_subject_comes_first(key, rest);
    assert(paths_of(changed)[i] == changed[i].path@);
}

/// A violation belongs to the change for no other reason: it names a changed path,
/// or has a subject, and that is a node in a changed file.
pub proof fn drift_has_a_reason(
    message: Seq<char>,
    nodes: Map<Seq<char>, Node>,
    changed: Seq<ChangedFile>,
)
    requires
        touches(message, nodes, paths_of(changed)),
    ensures
        (exists|i: int| 0 <= i < changed.len() && names_path(message, (#[trigger] changed[i]).path@))
            || (before_first(message, ": "@) is Some && nodes.contains_key(
            before_first(message, ": "@)->0,
        ) && nodes[before_first(message, ": "@)->0].path is Some && exists|i: int|
            0 <= i < changed.len() && (#[trigger] changed[i]).path@ == nodes[before_first(
                message,
                ": "@,
            )->0].path->0@),
{
    let paths = paths_of(changed);
    if exists|i: int| 0 <= i < paths.len() && names_path(message, #[trigger] paths[i]) {
        let i = choose|i: int| 0 <= i < paths.len() && names_path(message, #[trigger] paths[i]);
        assert(paths[i] == changed[i].path@);
    } else {
        let k = before_first(message, ": "@)->0;
        let p = nodes[k].path->0@;
        let i = choose|i: int| 0 <= i < paths.len() && paths[i] == p;
        assert(changed[i].path@ == p);
    }
}

/// A report says what the change is measured from. It holds one review for each
/// changed file, in order; every violation that
/// belongs to the change, and no other; and every dependent that the graph has
/// outside the change, and no other.
pub proof fn a_report_is_complete(
    r: ReviewReport,
    store: Snapshot,
    changed: Seq<ChangedFile>,
    violations: Seq<Violation>,
    retained: Seq<Seq<char>>,
    dependents: Seq<Seq<char>>,
    base: Option<Seq<char>>,
)
    requires
        report_is(r, store, changed, violations, retained, dependents, base),
    ensures
        r.schema@ == REVIEW_SCHEMA@,
        base is Some <==> r.base is Some,
        base is Some ==> r.base->0@ == base->0,
        r.changed_files == changed.len(),
        r.files@.len() == changed.len(),
        forall|i: int|
            #![trigger r.files@[i]]
            0 <= i < changed.len() ==> r.files@[i].path@ == changed[i].path@ && r.files@[i].status@
                == changed[i].status.token(),
        forall|i: int|
            #![trigger violations[i]]
            0 <= i < violations.len() && touches(
                violations[i].message@,
                store.nodes@,
                paths_of(changed),
            ) ==> drift_view(r.drift@).contains((violations[i].kind@, violations[i].message@)),
        r.drift@.len() == violations.filter(
            |v: Violation| touches(v.message@, store.nodes@, paths_of(changed)),
        ).len(),
        forall|i: int|
            #![trigger dependents[i]]
            0 <= i < dependents.len() && store.nodes@.contains_key(dependents[i]) && !keys_of(
                changed,
            ).contains(dependents[i]) && !defined_in(store.nodes@[dependents[i]], paths_of(changed))
                ==> impacted_view(r.impacted@).contains(
                (
                    store.nodes@[dependents[i]].key@,
                    store.nodes@[dependents[i]].name@,
                    store.nodes@[dependents[i]].kind@,
                ),
            ),
        r.impacted@.len() == dependents.filter(
            |k: Seq<char>|
                store.nodes@.contains_key(k) && !keys_of(changed).contains(k) && !defined_in(
                    store.nodes@[k],
                    paths_of(changed),
                ),
        ).len(),
{
    let f = drifting(store.nodes@, paths_of(changed));
    let g = outside(store.nodes@, keys_of(changed), paths_of(changed));
    picked_facts(violations, f);
    picked_facts(dependents, g);
    picked_count(
        violations,
        f,
        |v: Violation| touches(v.message@, store.nodes@, paths_of(changed)),
    );
    picked_count(
        dependents,
        g,
        |k: Seq<char>|
            store.nodes@.contains_key(k) && !keys_of(changed).contains(k) && !defined_in(
                store.nodes@[k],
                paths_of(changed),
            ),
    );
    assert(drift_view(r.drift@).len() == r.drift@.len());
    assert(impacted_view(r.impacted@).len() == r.impacted@.len());
    assert forall|i: int|
        #![trigger violations[i]]
        0 <= i < violations.len() && touches(
            violations[i].message@,
            store.nodes@,
            paths_of(changed),
        ) implies drift_view(r.drift@).contains((violations[i].kind@, violations[i].message@)) by {
        assert(f(violations[i]) == Some((violations[i].kind@, violations[i].message@)));
    }
    assert forall|i: int|
        #![trigger dependents[i]]
        0 <= i < dependents.len() && store.nodes@.contains_key(dependents[i]) && !keys_of(
            changed,
        ).contains(dependents[i]) && !defined_in(store.nodes@[dependents[i]], paths_of(changed)) implies impacted_view(
        r.impacted@,
    ).contains(
        (
            store.nodes@[dependents[i]].key@,
            store.nodes@[dependents[i]].name@,
            store.nodes@[dependents[i]].kind@,
        ),
    ) by {
        let n = store.nodes@[dependents[i]];
        assert(g(dependents[i]) == Some((n.key@, n.name@, n.kind@)));
    }
}

/// A node is defined in a file exactly if it has a path and that is the file's.
pub proof fn a_node_is_defined_where_its_path_says(n: Node, changed: Seq<ChangedFile>)
    ensures
        defined_in(n, paths_of(changed)) <==> n.path is Some && exists|i: int|
            0 <= i < changed.len() && (#[trigger] changed[i]).path@ == n.path->0@,
{
    let paths = paths_of(changed);
    if let Some(p) = n.path {
        if paths.contains(p@) {
            let i = choose|i: int| 0 <= i < paths.len() && paths[i] == p@;
            assert(changed[i].path@ == p@);
        }
        if exists|i: int| 0 <= i < changed.len() && (#[trigger] changed[i]).path@ == p@ {
            let i = choose|i: int| 0 <= i < changed.len() && (#[trigger] changed[i]).path@ == p@;
            assert(paths[i] == p@);
        }
    }
}

/// Only a new file of the working tree is compared with nothing, and only where
/// git showed no text of it.
pub proof fn only_a_silent_new_file_is_compared_with_nothing(
    base: Option<Seq<char>>,
    status: ChangeStatus,
    text: Option<Seq<char>>,
)
    ensures
        base is Some ==> !retried(base, status, text),
        status != ChangeStatus::Added ==> !retried(base, status, text),
        text is Some && text->0.len() > 0 ==> !retried(base, status, text),
        base is None && status == ChangeStatus::Added && (text is None || text->0.len() == 0)
            ==> retried(base, status, text),
{
}

// ---------------------------------------------------------------------------
// Words and paths
// ---------------------------------------------------------------------------

/// A change runs from its base, where it has one, to the head.
pub proof fn a_change_runs_to_the_head(base: Option<Seq<char>>)
    ensures
        range_of(base).last() == "HEAD"@,
        base is Some ==> range_of(base).len() == 2 && range_of(base)[0] == base->0,
        base is None ==> range_of(base).len() == 1,
{
}

/// How a file changed can be told from its token.
pub proof fn statuses_are_told_apart(a: ChangeStatus, b: ChangeStatus)
    ensures
        a.token() == b.token() ==> a == b,
        ChangeStatus::Added.token() == "added"@,
        ChangeStatus::Deleted.token() == "deleted"@,
        ChangeStatus::Modified.token() == "modified"@,
{
    reveal_strlit("added");
    reveal_strlit("modified");
    reveal_strlit("deleted");
    assert("added"@[0] == 'a' && "modified"@[0] == 'm' && "deleted"@[0] == 'd');
}

/// A path is a run of letters, digits and the marks that file names have; white
/// space, quotes, brackets and the marks of a sentence part it from what is around
/// it.
pub proof fn what_a_path_is_made_of(c: char)
    ensures
        c <= '\u{7f}' ==> (in_paths(c) <==> ('a' <= c <= 'z' || 'A' <= c <= 'Z' || '0' <= c <= '9'
            || "_-./\\+@~%"@.contains(c))),
        "‘’“”—–…«»、。，！？：；（）「」"@.contains(c) ==> !in_paths(c),
        '\u{c0}' <= c <= '\u{24f}' ==> in_paths(c),
{
    reveal_strlit("_-./\\+@~%");
    reveal_strlit("‘’“”—–…«»、。，！？：；（）「」");
    let m = "_-./\\+@~%"@;
    assert(m[0] == '_' && m[1] == '-' && m[2] == '.' && m[3] == '/' && m[4] == '\\' && m[5] == '+'
        && m[6] == '@' && m[7] == '~' && m[8] == '%');
}

/// `s` opens a path at its end: nothing stands there, or what ends there is no part
/// of a path; or a step from here, or the way from the root or from home, leads up
/// to it.
pub open spec fn leads_up(s: Seq<char>, lead: Seq<char>) -> bool {
    &&& s.len() == 0 || !in_paths(s.last())
    &&& lead.len() == 0 || lead == "./"@ || {
        &&& lead.last() == '/'
        &&& lead[0] == '/' || (lead[0] == '~' && lead[1] == '/')
        &&& forall|i: int| 0 <= i < lead.len() ==> in_paths(#[trigger] lead[i])
    }
}

proof fn runs_reach_back(s: Seq<char>, from: int, i: int)
    requires
        0 <= from <= i <= s.len(),
        from == 0 || !in_paths(s[from - 1]),
        forall|k: int| from <= k < i ==> in_paths(#[trigger] s[k]),
    ensures
        run_from(s, i) == from,
    decreases i,
{
    if i > from {
        assert(in_paths(s[i - 1]));
        runs_reach_back(s, from, i - 1);
    }
}

proof fn stops_close(s: Seq<char>, j: int, stops: nat)
    requires
        0 <= j,
        j + stops <= s.len(),
        forall|k: int| j <= k < j + stops ==> #[trigger] s[k] == '.',
        j + stops == s.len() || !in_paths(s[j + stops]),
    ensures
        closes_at(s, j),
    decreases stops,
{
    if stops > 0 {
        assert(s[j] == '.');
        stops_close(s, j + 1, (stops - 1) as nat);
    }
}

/// A path is named wherever it stands by itself in a message: at either end, between
/// white space, quotes or brackets, after `./`, at the end of the way from the root
/// or from home, and before any number of stops that end a sentence.
pub proof fn a_path_is_named_where_it_stands(
    before: Seq<char>,
    lead: Seq<char>,
    path: Seq<char>,
    stops: nat,
    after: Seq<char>,
)
    requires
        leads_up(before, lead),
        after.len() == 0 || !in_paths(after[0]),
    ensures
        names_path(before + lead + path + Seq::new(stops, |i: int| '.') + after, path),
{
    reveal_strlit("./");
    let dots = Seq::new(stops, |i: int| '.');
    let s = before + lead + path + dots + after;
    let b = before.len() as int;
    let i = b + lead.len();
    assert(s.subrange(i, i + path.len()) =~= path);
    assert(occurs_at(s, path, i));
    assert forall|k: int| 0 <= k < lead.len() implies s[b + k] == #[trigger] lead[k] by {}
    if b > 0 {
        assert(s[b - 1] == before.last());
    }
    assert(opens_at(s, b));
    if lead.len() == 0 {
    } else if lead == "./"@ {
        assert(s[b] == lead[0] && s[b + 1] == lead[1]);
        assert(opens_at(s, i));
    } else {
        assert forall|k: int| b <= k < i implies in_paths(#[trigger] s[k]) by {
            assert(s[k] == lead[k - b]);
        }
        runs_reach_back(s, b, i);
        assert(s[i - 1] == lead[lead.len() - 1]);
        assert(s[b] == lead[0]);
        if lead[0] == '~' {
            assert(lead.len() >= 2);
            assert(s[b + 1] == lead[1]);
        }
        assert(opens_at(s, i));
    }
    let j = i + path.len();
    if after.len() > 0 {
        assert(s[j + stops] == after[0]);
    }
    stops_close(s, j, stops);
}

} // verus!
