//! What holds of every page of nodes, of every failure's answer and of every
//! path's parameters.
use vstd::prelude::*;

use crate::graph::{Node, Provenance};
use crate::graph_api::{
    asked_provenance, blob_records, dangles, fault_status, filter_of, kinds_of, link_target,
    lowercase_of, no_node_of, nonempty, not_qualified, page_of, param_of, passes, provenance_named,
    rebuild_of, unknown_order_of, unknown_provenance, ApiError, MediaRecord, NodesQuery,
    WorkspaceError, WorkspaceFault,
};
use crate::seqs::{filter_adds_up, filter_push, filtered};
use crate::text::{
    begins, contains, contains_within, holds_its_middle, join_of, last_piece, occurs_at, split_of,
    splits_add_up,
};

verus! {

// ---------------------------------------------------------------------------
// Kinds
// ---------------------------------------------------------------------------

/// A list of kinds is read from front to back: two lists with a comma between
/// them are the kinds of the one and then those of the other; a text without a
/// comma is one kind, and an empty one none.
pub proof fn kinds_add_up(a: Seq<char>, b: Seq<char>, kind: Seq<char>)
    requires
        !kind.contains(','),
    ensures
        kinds_of(a + seq![','] + b) == kinds_of(a) + kinds_of(b),
        kind.len() > 0 ==> kinds_of(kind) == seq![kind],
        kinds_of(Seq::empty()) == Seq::<Seq<char>>::empty(),
{
    splits_add_up(a, b, ',');
    filter_adds_up(split_of(a, ','), split_of(b, ','), nonempty());
    last_piece(a, kind, ',');
    let p = nonempty();
    let none = Seq::<char>::empty();
    let empty = Seq::<Seq<char>>::empty();
    filtered(empty, p);
    assert(empty.filter(p) =~= empty);
    filter_push(empty, kind, p);
    filter_push(empty, none, p);
    assert(empty.push(kind) =~= seq![kind]);
    assert(empty.push(none) =~= split_of(none, ','));
}

/// Where kinds alone are asked for, a node is kept by a list exactly if it is
/// kept by a part of it; a list of one kind keeps that kind; and so the order of
/// the kinds does not matter, nor how often one is named.
pub proof fn any_listed_kind_is_kept(
    n: Node,
    name: Seq<char>,
    key: Seq<char>,
    a: Seq<char>,
    b: Seq<char>,
    kind: Seq<char>,
)
    requires
        kind.len() > 0,
        !kind.contains(','),
    ensures
        passes(n, name, key, Some(kinds_of(a + seq![','] + b)), None, None) <==> passes(
            n,
            name,
            key,
            Some(kinds_of(a)),
            None,
            None,
        ) || passes(n, name, key, Some(kinds_of(b)), None, None),
        passes(n, name, key, Some(kinds_of(a + seq![','] + b)), None, None) == passes(
            n,
            name,
            key,
            Some(kinds_of(b + seq![','] + a)),
            None,
            None,
        ),
        passes(n, name, key, Some(kinds_of(kind)), None, None) <==> n.kind@ == kind,
        forall|i: int|
            0 <= i < kinds_of(a).len() && #[trigger] kinds_of(a)[i] == n.kind@ ==> passes(
                n,
                name,
                key,
                Some(kinds_of(a)),
                None,
                None,
            ),
{
    kinds_add_up(a, b, kind);
    kinds_add_up(b, a, kind);
    let x = kinds_of(a);
    let y = kinds_of(b);
    in_either(x, y, n.kind@);
    in_either(y, x, n.kind@);
    assert(seq![kind][0] == kind);
}

proof fn in_either(x: Seq<Seq<char>>, y: Seq<Seq<char>>, k: Seq<char>)
    ensures
        (x + y).contains(k) <==> x.contains(k) || y.contains(k),
{
    if x.contains(k) {
        let i = choose|i: int| 0 <= i < x.len() && x[i] == k;
        assert((x + y)[i] == k);
    }
    if y.contains(k) {
        let i = choose|i: int| 0 <= i < y.len() && y[i] == k;
        assert((x + y)[x.len() + i] == k);
    }
    if (x + y).contains(k) {
        let i = choose|i: int| 0 <= i < (x + y).len() && (x + y)[i] == k;
        if i < x.len() {
            assert(x[i] == k);
        } else {
            assert(y[i - x.len()] == k);
        }
    }
}

// ---------------------------------------------------------------------------
// Filters and pages
// ---------------------------------------------------------------------------

/// The filters are asked one by one, and a node is kept that passes each; a
/// filter that was not given keeps every node; a provenance keeps the nodes of
/// that provenance; a text keeps those that hold it in their name or in their
/// key, wherever it stands there.
pub proof fn every_filter_is_asked(
    n: Node,
    name: Seq<char>,
    key: Seq<char>,
    kinds: Option<Seq<Seq<char>>>,
    provenance: Option<Provenance>,
    needle: Option<Seq<char>>,
)
    ensures
        passes(n, name, key, None, None, None),
        passes(n, name, key, kinds, provenance, needle) <==> passes(n, name, key, kinds, None, None)
            && passes(n, name, key, None, provenance, None) && passes(
            n,
            name,
            key,
            None,
            None,
            needle,
        ),
        provenance matches Some(p) ==> (passes(n, name, key, None, provenance, None)
            <==> n.provenance == p),
        needle matches Some(q) ==> (passes(n, name, key, None, None, needle) <==> (exists|i: int|
            occurs_at(name, q, i)) || (exists|i: int| occurs_at(key, q, i))),
{
}

/// A text is found wherever it stands in the name, and wherever it stands in the
/// key.
pub proof fn a_text_is_found_anywhere(
    n: Node,
    before: Seq<char>,
    q: Seq<char>,
    after: Seq<char>,
    other: Seq<char>,
)
    ensures
        passes(n, before + q + after, other, None, None, Some(q)),
        passes(n, other, before + q + after, None, None, Some(q)),
{
    let s = before + q + after;
    let i = before.len() as int;
    assert(s.subrange(i, i + q.len()) =~= q);
    assert(occurs_at(s, q, i));
}

/// The query's own texts are what a node is held against: a listed kind, the
/// provenance, and the search text against name and key, all in lower case.
pub proof fn a_query_is_read_whole(q: NodesQuery, p: Option<Provenance>, n: Node)
    ensures
        filter_of(q, p)(n) <==> {
            &&& q.kinds is Some ==> exists|i: int|
                0 <= i < split_of(q.kinds->0@, ',').len() && (#[trigger] split_of(
                    q.kinds->0@,
                    ',',
                )[i]) == n.kind@ && n.kind@.len() > 0
            &&& p is Some ==> n.provenance == p->0
            &&& q.q is Some ==> contains(lowercase_of(n.name@), lowercase_of(q.q->0@)) || contains(
                lowercase_of(n.key@),
                lowercase_of(q.q->0@),
            )
        },
{
    if let Some(k) = q.kinds {
        let pieces = split_of(k@, ',');
        let kept = kinds_of(k@);
        filtered(pieces, nonempty());
        if kept.contains(n.kind@) {
            let i = choose|i: int| 0 <= i < kept.len() && kept[i] == n.kind@;
            assert(nonempty()(kept[i]) && pieces.contains(kept[i]));
            let j = choose|j: int| 0 <= j < pieces.len() && pieces[j] == n.kind@;
            assert(pieces[j] == n.kind@);
        }
        if exists|i: int| 0 <= i < pieces.len() && (#[trigger] pieces[i]) == n.kind@ && n.kind@.len()
            > 0 {
            let i = choose|i: int|
                0 <= i < pieces.len() && (#[trigger] pieces[i]) == n.kind@ && n.kind@.len() > 0;
            assert(nonempty()(pieces[i]));
            assert(kept.contains(pieces[i]));
        }
    }
}

/// A page holds the items from its offset on, in order and without a gap: as
/// many as the limit allows and there are.
pub proof fn a_page_starts_at_its_offset<T>(s: Seq<T>, offset: int, limit: int)
    requires
        offset >= 0,
        limit >= 0,
    ensures
        offset + limit <= s.len() ==> page_of(s, offset, limit).len() == limit,
        offset <= s.len() < offset + limit ==> page_of(s, offset, limit).len() == s.len() - offset,
        offset >= s.len() ==> page_of(s, offset, limit).len() == 0,
        forall|i: int|
            0 <= i < page_of(s, offset, limit).len() ==> #[trigger] page_of(s, offset, limit)[i]
                == s[offset + i],
        limit >= s.len() ==> page_of(s, 0, limit) == s,
{
    if limit >= s.len() {
        assert(page_of(s, 0, limit) =~= s);
    }
}

/// The tokens of the provenances are read back as what they stand for, and no
/// other text is read as one.
pub proof fn provenances_are_read_back(p: Provenance, s: Seq<char>)
    ensures
        provenance_named(p.token()) == Some(p),
        provenance_named(s) == Some(p) ==> s == p.token(),
{
    reveal_strlit("derived");
    reveal_strlit("authored");
    reveal_strlit("inferred");
    assert("derived"@[0] == 'd');
    assert("authored"@[0] == 'a');
    assert("inferred"@[0] == 'i');
}

// ---------------------------------------------------------------------------
// Failures and parameters
// ---------------------------------------------------------------------------

/// What is not there is answered as such, what is asked amiss or too loosely as a
/// bad request, and only what fails on this side as a failure.
pub proof fn every_fault_has_its_answer(fault: WorkspaceFault)
    ensures
        fault_status(fault) == 404 <==> (fault == WorkspaceFault::UnknownWorkspace || fault
            == WorkspaceFault::UnknownProject || fault == WorkspaceFault::NoGraph),
        fault_status(fault) == 500 <==> fault == WorkspaceFault::Other,
        fault_status(fault) == 404 || fault_status(fault) == 400 || fault_status(fault) == 500,
{
}

/// A link dangles where its target's project is not hosted, has no graph or is
/// not named well; a fault of the workspace asked for, or on this side, is never
/// passed over.
pub proof fn only_a_targets_faults_dangle(
    followed: Result<Option<Node>, WorkspaceError>,
    fault: WorkspaceFault,
)
    ensures
        dangles(fault) <==> (fault != WorkspaceFault::UnknownWorkspace && fault
            != WorkspaceFault::AmbiguousWorkspace && fault != WorkspaceFault::Other),
        dangles(fault) ==> fault_status(fault) != 500,
        followed is Ok ==> link_target(followed) == Ok::<_, WorkspaceFault>(followed->Ok_0),
        followed is Err && dangles(followed->Err_0.fault) ==> link_target(followed) == Ok::<
            Option<Node>,
            WorkspaceFault,
        >(None),
        followed is Err && !dangles(followed->Err_0.fault) ==> link_target(followed) == Err::<
            Option<Node>,
            WorkspaceFault,
        >(followed->Err_0.fault),
{
}

/// A parameter's value is that of the first of its name; without one of its name
/// it has none, whatever others there are.
pub proof fn the_first_of_a_name_counts(params: Seq<(String, String)>, name: Seq<char>)
    ensures
        forall|i: int|
            #![trigger params[i]]
            0 <= i < params.len() && params[i].0@ == name && (forall|j: int|
                0 <= j < i ==> (#[trigger] params[j]).0@ != name) ==> param_of(params, name) == Some(
                params[i].1@,
            ),
        (forall|j: int| 0 <= j < params.len() ==> (#[trigger] params[j]).0@ != name) ==> param_of(
            params,
            name,
        ) is None,
    decreases params.len(),
{
    if params.len() > 0 {
        let rest = params.drop_first();
        the_first_of_a_name_counts(rest, name);
        assert forall|i: int|
            #![trigger params[i]]
            0 <= i < params.len() && params[i].0@ == name && (forall|j: int|
                0 <= j < i ==> (#[trigger] params[j]).0@ != name) implies param_of(params, name)
            == Some(params[i].1@) by {
            if i > 0 {
                assert(params[0].0@ != name);
                assert(rest[i - 1] == params[i]);
                assert forall|j: int| 0 <= j < i - 1 implies (#[trigger] rest[j]).0@ != name by {
                    assert(rest[j] == params[j + 1]);
                }
            }
        }
        if forall|j: int| 0 <= j < params.len() ==> (#[trigger] params[j]).0@ != name {
            assert(params[0].0@ != name);
            assert forall|j: int| 0 <= j < rest.len() implies (#[trigger] rest[j]).0@ != name by {
                assert(rest[j] == params[j + 1]);
            }
        }
    }
}

/// A node shows the records of its blob: each of them, and none of another; a
/// node without a blob shows none.
pub proof fn a_node_shows_its_own_records(records: Seq<MediaRecord>, blob: Seq<char>, i: int)
    ensures
        0 <= i < records.len() ==> (blob_records(records, Some(blob)).contains(records[i])
            <==> records[i].blob_id@ == blob),
        blob_records(records, None).len() == 0,
        blob_records(records, Some(blob)).len() <= records.len(),
{
    let p = crate::graph_api::of_blob(blob);
    filtered(records, p);
    let own = records.filter(p);
    if 0 <= i < records.len() {
        if own.contains(records[i]) {
            let k = choose|k: int| 0 <= k < own.len() && own[k] == records[i];
            assert(p(own[k]));
        }
        if records[i].blob_id@ == blob {
            assert(p(records[i]));
        }
    }
}

/// Each error has the status of its kind and says what it was given.
pub proof fn an_error_keeps_its_kind_and_text(m: String)
    ensures
        ApiError::BadRequest(m).status_of() == 400,
        ApiError::NotFound(m).status_of() == 404,
        ApiError::Internal(m).status_of() == 500,
        ApiError::BadRequest(m).text() == m@,
        ApiError::NotFound(m).text() == m@,
        ApiError::Internal(m).text() == m@,
{
}

/// A provenance is asked for exactly where the query has one, and it is the one
/// whose token stands there; any other word is refused.
pub proof fn an_unknown_provenance_is_refused(q: NodesQuery)
    ensures
        q.provenance is None <==> asked_provenance(q) == Ok::<Option<Provenance>, Seq<char>>(None),
        forall|p: Provenance|
            asked_provenance(q) == Ok::<Option<Provenance>, Seq<char>>(Some(p)) <==> q.provenance is Some
                && q.provenance->0@ == #[trigger] p.token(),
        asked_provenance(q) is Err <==> q.provenance is Some && forall|p: Provenance|
            q.provenance->0@ != #[trigger] p.token(),
        asked_provenance(q) is Err ==> asked_provenance(q)->Err_0 == q.provenance->0@,
{
    reveal_strlit("derived");
    reveal_strlit("authored");
    reveal_strlit("inferred");
    assert("derived"@[0] == 'd' && "authored"@[0] == 'a' && "inferred"@[0] == 'i');
    assert(Provenance::Derived.token() == "derived"@);
    assert(Provenance::Authored.token() == "authored"@);
    assert(Provenance::Inferred.token() == "inferred"@);
}

/// A refusal names what was asked for: the node and the project it is not in, the
/// order or the provenance that there is not, and every order there is, or the key
/// without a project.
pub proof fn a_refusal_names_its_cause(
    key: Seq<char>,
    project: Seq<char>,
    known: Seq<Seq<char>>,
    i: int,
)
    ensures
        contains(no_node_of(key, project), "no node `"@ + key + "`"@),
        contains(no_node_of(key, project), "in project `"@ + project + "`"@),
        contains(unknown_order_of(key, known), "`"@ + key + "`"@),
        0 <= i < known.len() ==> contains(unknown_order_of(key, known), known[i]),
        contains(unknown_provenance(key), "`"@ + key + "`"@),
        contains(not_qualified(key), "`"@ + key + "`"@),
{
    no_node_says(key, project);
    unknowns_say(key, known, i);
}

proof fn no_node_says(key: Seq<char>, project: Seq<char>)
    ensures
        contains(no_node_of(key, project), "no node `"@ + key + "`"@),
        contains(no_node_of(key, project), "in project `"@ + project + "`"@),
{
    let none = Seq::<char>::empty();
    let t = "`"@;
    reveal_strlit("`");
    reveal_strlit("` in project `");
    reveal_strlit("in project `");
    reveal_strlit(" ");
    let gap = " "@;
    let at = "in project `"@;
    assert("` in project `"@ =~= t + gap + at);
    let whole = no_node_of(key, project);
    let first = "no node `"@ + key + t;
    let second = at + project + t;
    assert(none + first + (gap + second) =~= whole);
    holds_its_middle(none, first, gap + second);
    assert(first + gap + second + none =~= whole);
    holds_its_middle(first + gap, second, none);
}

proof fn unknowns_say(key: Seq<char>, known: Seq<Seq<char>>, i: int)
    ensures
        contains(unknown_order_of(key, known), "`"@ + key + "`"@),
        0 <= i < known.len() ==> contains(unknown_order_of(key, known), known[i]),
        contains(unknown_provenance(key), "`"@ + key + "`"@),
        contains(not_qualified(key), "`"@ + key + "`"@),
{
    let none = Seq::<char>::empty();
    let t = "`"@;
    let named = t + key + t;
    reveal_strlit("`");
    reveal_strlit("unknown order `");
    reveal_strlit("unknown order ");
    reveal_strlit("` (expected ");
    reveal_strlit(" (expected ");
    let a = "unknown order "@;
    let b = " (expected "@;
    let list = join_of(known, "|"@);
    assert("unknown order `"@ =~= a + t);
    assert("` (expected "@ =~= t + b);
    assert(a + named + (b + list + ")"@) =~= unknown_order_of(key, known));
    holds_its_middle(a, named, b + list + ")"@);
    assert(a + named + b + list + ")"@ =~= unknown_order_of(key, known));
    holds_its_middle(a + named + b, list, ")"@);
    if 0 <= i < known.len() {
        crate::text::join_holds_each(known, "|"@, i);
        contains_within(unknown_order_of(key, known), list, known[i]);
    }
    reveal_strlit("unknown provenance `");
    reveal_strlit("unknown provenance ");
    reveal_strlit("` (expected derived|authored|inferred)");
    reveal_strlit(" (expected derived|authored|inferred)");
    let c = "unknown provenance "@;
    let d = " (expected derived|authored|inferred)"@;
    assert("unknown provenance `"@ =~= c + t);
    assert("` (expected derived|authored|inferred)"@ =~= t + d);
    assert(c + named + d =~= unknown_provenance(key));
    holds_its_middle(c, named, d);
    reveal_strlit("` is not a project-qualified `<proj>::<key>`");
    reveal_strlit(" is not a project-qualified `<proj>::<key>`");
    let e = " is not a project-qualified `<proj>::<key>`"@;
    assert("` is not a project-qualified `<proj>::<key>`"@ =~= t + e);
    assert(none + named + e =~= not_qualified(key));
    holds_its_middle(none, named, e);
}

/// The command that rebuilds a record names its blob and forces the rebuild.
pub proof fn a_rebuild_names_its_blob(blob: Seq<char>)
    ensures
        begins(rebuild_of(blob), "roteiro media build --blob "@ + blob),
        contains(rebuild_of(blob), " --force"@),
{
    let whole = rebuild_of(blob);
    let lead = "roteiro media build --blob "@ + blob;
    assert(whole.subrange(0, lead.len() as int) =~= lead);
    assert(lead + " --force"@ + Seq::<char>::empty() =~= whole);
    holds_its_middle(lead, " --force"@, Seq::<char>::empty());
}

} // verus!
