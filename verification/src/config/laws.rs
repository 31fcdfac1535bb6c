//! What holds of every resolution of the workspace tables.
use vstd::prelude::*;

use crate::config::paths::{all_expanded, components, each_path_once, expanded, file_name_of, has_path};
use crate::config::workspaces::{
    all_found, decl_names, deduped, dup_at, fold, group_names, group_of, left, left_shrinks,
    linked_groups, lookup, message_of, numbered, own_members, resolved, solo_base, standalone_of, ticked,
    with_members, ConfigFault, Decl, FaultView, Folded, GroupView, ResolvedWorkspace,
    MUST_BE_UNIQUE, NO_CYCLES, ONLY_NAMED,
};
use crate::config::{list_of, Config, WorkspaceConfig};
use crate::text::{contains, decimal_of, join_of, merged, merged_facts, views};

verus! {

// ---------------------------------------------------------------------------
// Lists that grow
// ---------------------------------------------------------------------------

/// `now` is `was` with the items of `added` behind it: nothing is moved or lost,
/// and nothing is added that stood before it.
pub open spec fn grown(was: Seq<Seq<char>>, now: Seq<Seq<char>>, added: Set<Seq<char>>) -> bool {
    &&& was.len() <= now.len()
    &&& now.take(was.len() as int) == was
    &&& forall|p: Seq<char>| #[trigger] now.contains(p) <==> was.contains(p) || added.contains(p)
    &&& forall|i: int, j: int|
        0 <= i < j < now.len() && was.len() <= j ==> #[trigger] now[i] != #[trigger] now[j]
}

proof fn grown_by_nothing(s: Seq<Seq<char>>, none: Set<Seq<char>>)
    requires
        forall|p: Seq<char>| !none.contains(p),
    ensures
        grown(s, s, none),
{
    assert(s.take(s.len() as int) =~= s);
}

proof fn grown_by_merging(base: Seq<Seq<char>>, more: Seq<Seq<char>>, added: Set<Seq<char>>)
    requires
        forall|p: Seq<char>| added.contains(p) <==> more.contains(p),
    ensures
        grown(base, merged(base, more), added),
{
    merged_facts(base, more);
}

proof fn grown_twice(
    a: Seq<Seq<char>>,
    b: Seq<Seq<char>>,
    c: Seq<Seq<char>>,
    s: Set<Seq<char>>,
    t: Set<Seq<char>>,
    u: Set<Seq<char>>,
)
    requires
        grown(a, b, s),
        grown(b, c, t),
        forall|p: Seq<char>| u.contains(p) <==> s.contains(p) || t.contains(p),
    ensures
        grown(a, c, u),
{
    assert(c.take(a.len() as int) =~= b.take(a.len() as int)) by {
        assert forall|i: int| 0 <= i < a.len() implies c.take(a.len() as int)[i] == b.take(
            a.len() as int,
        )[i] by {
            assert(c.take(b.len() as int)[i] == b[i]);
        }
    }
    assert forall|p: Seq<char>| #[trigger] c.contains(p) <==> a.contains(p) || u.contains(p) by {
        assert(c.contains(p) <==> b.contains(p) || t.contains(p));
        assert(b.contains(p) <==> a.contains(p) || s.contains(p));
    }
    assert forall|i: int, j: int| 0 <= i < j < c.len() && a.len() <= j implies #[trigger] c[i]
        != #[trigger] c[j] by {
        if j < b.len() {
            assert(c.take(b.len() as int)[i] == b[i]);
            assert(c.take(b.len() as int)[j] == b[j]);
            assert(b[i] != b[j]);
        }
    }
}

// ---------------------------------------------------------------------------
// What a fold reaches
// ---------------------------------------------------------------------------

/// The workspaces that the workspace `x` includes.
pub open spec fn includes_of(c: Seq<Decl>, x: Seq<char>) -> Seq<Seq<char>> {
    match lookup(c, x) {
        Some(d) => d.includes,
        None => Seq::empty(),
    }
}

/// Whatever a workspace of `s` includes is in `s` too.
pub open spec fn closed_under(c: Seq<Decl>, s: Set<Seq<char>>) -> bool {
    forall|x: Seq<char>, n: Seq<char>|
        s.contains(x) && #[trigger] includes_of(c, x).contains(n) ==> #[trigger] s.contains(n)
}

/// `x` is reached from the workspaces of `list` through `includes`.
pub open spec fn reached(c: Seq<Decl>, list: Seq<Seq<char>>, x: Seq<char>) -> bool {
    forall|s: Set<Seq<char>>|
        #[trigger] closed_under(c, s) && (forall|n: Seq<char>| list.contains(n) ==> s.contains(n))
            ==> s.contains(x)
}

/// The roots that the workspaces of `s` declare.
pub open spec fn roots_in(c: Seq<Decl>, home: Option<Seq<char>>, s: Set<Seq<char>>) -> Set<
    Seq<char>,
> {
    Set::new(
        |p: Seq<char>|
            exists|x: Seq<char>| #[trigger]
                s.contains(x) && lookup(c, x) is Some && all_expanded(
                    lookup(c, x)->0.roots,
                    home,
                ).contains(p),
    )
}

/// The repositories that the workspaces of `s` declare.
pub open spec fn repos_in(c: Seq<Decl>, home: Option<Seq<char>>, s: Set<Seq<char>>) -> Set<
    Seq<char>,
> {
    Set::new(
        |p: Seq<char>|
            exists|x: Seq<char>| #[trigger]
                s.contains(x) && lookup(c, x) is Some && all_expanded(
                    lookup(c, x)->0.repos,
                    home,
                ).contains(p),
    )
}

spec fn sound(
    c: Seq<Decl>,
    list: Seq<Seq<char>>,
    path: Seq<Seq<char>>,
    was: Set<Seq<char>>,
    now: Set<Seq<char>>,
) -> bool {
    &&& forall|x: Seq<char>| was.contains(x) ==> #[trigger] now.contains(x)
    &&& forall|n: Seq<char>| #[trigger] list.contains(n) ==> now.contains(n) && !path.contains(n)
    &&& forall|x: Seq<char>| #[trigger]
        now.contains(x) && !was.contains(x) ==> lookup(c, x) is Some && !path.contains(x)
    &&& forall|x: Seq<char>, n: Seq<char>|
        now.contains(x) && !was.contains(x) && #[trigger] includes_of(c, x).contains(n)
            ==> #[trigger] now.contains(n) && !path.contains(n)
}

proof fn fold_is_sound(
    c: Seq<Decl>,
    home: Option<Seq<char>>,
    list: Seq<Seq<char>>,
    path: Seq<Seq<char>>,
    st: Folded,
)
    requires
        fold(c, home, list, path, st) is Ok,
    ensures
        sound(c, list, path, st.done, fold(c, home, list, path, st)->Ok_0.done),
    decreases left(c, path), list.len(),
{
    if list.len() > 0 {
        let n = list[0];
        let d = lookup(c, n)->0;
        let rest = list.drop_first();
        let f = fold(c, home, list, path, st)->Ok_0;
        if st.done.contains(n) {
            fold_is_sound(c, home, rest, path, st);
            assert forall|m: Seq<char>| #[trigger] list.contains(m) implies f.done.contains(m)
                && !path.contains(m) by {
                in_head_or_tail(list, m);
            }
        } else {
            left_shrinks(c, path, n);
            let with = with_members(st, Decl { name: n, ..d }, home);
            let inner = fold(c, home, d.includes, path.push(n), with)->Ok_0;
            fold_is_sound(c, home, d.includes, path.push(n), with);
            fold_is_sound(c, home, rest, path, inner);
            assert forall|x: Seq<char>| path.contains(x) implies path.push(n).contains(x) by {
                let i = choose|i: int| 0 <= i < path.len() && path[i] == x;
                assert(path.push(n)[i] == x);
            }
            assert(with.done.contains(n));
            assert(inner.done.contains(n));
            assert forall|m: Seq<char>| #[trigger] list.contains(m) implies f.done.contains(m)
                && !path.contains(m) by {
                in_head_or_tail(list, m);
            }
            assert forall|x: Seq<char>| #[trigger] f.done.contains(x) && !st.done.contains(x) implies
                lookup(c, x) is Some && !path.contains(x) by {
                if inner.done.contains(x) {
                    if with.done.contains(x) {
                        assert(x == n);
                    }
                }
            }
            assert forall|x: Seq<char>, m: Seq<char>|
                f.done.contains(x) && !st.done.contains(x) && #[trigger] includes_of(c, x).contains(
                    m,
                ) implies #[trigger] f.done.contains(m) && !path.contains(m) by {
                if inner.done.contains(x) {
                    if with.done.contains(x) {
                        assert(x == n);
                        assert(d.includes.contains(m));
                    }
                    assert(inner.done.contains(m));
                    assert(!path.push(n).contains(m));
                }
            }
        }
    }
}

proof fn in_head_or_tail(list: Seq<Seq<char>>, m: Seq<char>)
    requires
        list.contains(m),
    ensures
        m == list[0] || list.drop_first().contains(m),
{
    let i = choose|i: int| 0 <= i < list.len() && list[i] == m;
    if i > 0 {
        assert(list.drop_first()[i - 1] == m);
    }
}

/// A fold goes no further than what is reached.
proof fn fold_is_tight(
    c: Seq<Decl>,
    home: Option<Seq<char>>,
    list: Seq<Seq<char>>,
    path: Seq<Seq<char>>,
    st: Folded,
    s: Set<Seq<char>>,
)
    requires
        fold(c, home, list, path, st) is Ok,
        closed_under(c, s),
        forall|n: Seq<char>| list.contains(n) ==> s.contains(n),
    ensures
        forall|x: Seq<char>| #[trigger]
            fold(c, home, list, path, st)->Ok_0.done.contains(x) ==> st.done.contains(x)
                || s.contains(x),
    decreases left(c, path), list.len(),
{
    if list.len() > 0 {
        let n = list[0];
        let d = lookup(c, n)->0;
        let rest = list.drop_first();
        assert(list.contains(n));
        assert forall|m: Seq<char>| rest.contains(m) implies s.contains(m) by {
            let i = choose|i: int| 0 <= i < rest.len() && rest[i] == m;
            assert(list[i + 1] == m);
            assert(list.contains(m));
        }
        if st.done.contains(n) {
            fold_is_tight(c, home, rest, path, st, s);
        } else {
            left_shrinks(c, path, n);
            let with = with_members(st, Decl { name: n, ..d }, home);
            let inner = fold(c, home, d.includes, path.push(n), with)->Ok_0;
            assert forall|m: Seq<char>| d.includes.contains(m) implies s.contains(m) by {
                assert(includes_of(c, n).contains(m));
            }
            fold_is_tight(c, home, d.includes, path.push(n), with, s);
            fold_is_tight(c, home, rest, path, inner, s);
        }
    }
}

proof fn fold_grows(
    c: Seq<Decl>,
    home: Option<Seq<char>>,
    list: Seq<Seq<char>>,
    path: Seq<Seq<char>>,
    st: Folded,
)
    requires
        fold(c, home, list, path, st) is Ok,
    ensures
        ({
            let f = fold(c, home, list, path, st)->Ok_0;
            let new = f.done.difference(st.done);
            &&& grown(st.roots, f.roots, roots_in(c, home, new))
            &&& grown(st.repos, f.repos, repos_in(c, home, new))
        }),
    decreases left(c, path), list.len(),
{
    let f = fold(c, home, list, path, st)->Ok_0;
    let new = f.done.difference(st.done);
    if list.len() == 0 {
        assert(new =~= Set::empty());
        grown_by_nothing(st.roots, roots_in(c, home, new));
        grown_by_nothing(st.repos, repos_in(c, home, new));
    } else {
        let n = list[0];
        let d = lookup(c, n)->0;
        let rest = list.drop_first();
        if st.done.contains(n) {
            fold_grows(c, home, rest, path, st);
        } else {
            left_shrinks(c, path, n);
            let with = with_members(st, Decl { name: n, ..d }, home);
            let inner = fold(c, home, d.includes, path.push(n), with)->Ok_0;
            fold_grows(c, home, d.includes, path.push(n), with);
            fold_grows(c, home, rest, path, inner);
            fold_is_sound(c, home, d.includes, path.push(n), with);
            fold_is_sound(c, home, rest, path, inner);
            let one = set![n];
            let two = inner.done.difference(with.done);
            let three = f.done.difference(inner.done);
            assert(with.done.contains(n));
            assert(inner.done.contains(n));
            assert(f.done.contains(n));
            assert forall|p: Seq<char>| roots_in(c, home, one).contains(p) <==> all_expanded(
                d.roots,
                home,
            ).contains(p) by {
                assert(one.contains(n));
            }
            assert forall|p: Seq<char>| repos_in(c, home, one).contains(p) <==> all_expanded(
                d.repos,
                home,
            ).contains(p) by {
                assert(one.contains(n));
            }
            grown_by_merging(st.roots, all_expanded(d.roots, home), roots_in(c, home, one));
            grown_by_merging(st.repos, all_expanded(d.repos, home), repos_in(c, home, one));
            let early = one.union(two);
            union_of_members(c, home, one, two, early);
            grown_twice(
                st.roots,
                with.roots,
                inner.roots,
                roots_in(c, home, one),
                roots_in(c, home, two),
                roots_in(c, home, early),
            );
            grown_twice(
                st.repos,
                with.repos,
                inner.repos,
                repos_in(c, home, one),
                repos_in(c, home, two),
                repos_in(c, home, early),
            );
            assert(new =~= early.union(three));
            union_of_members(c, home, early, three, new);
            grown_twice(
                st.roots,
                inner.roots,
                f.roots,
                roots_in(c, home, early),
                roots_in(c, home, three),
                roots_in(c, home, new),
            );
            grown_twice(
                st.repos,
                inner.repos,
                f.repos,
                repos_in(c, home, early),
                repos_in(c, home, three),
                repos_in(c, home, new),
            );
        }
    }
}

proof fn union_of_members(
    c: Seq<Decl>,
    home: Option<Seq<char>>,
    a: Set<Seq<char>>,
    b: Set<Seq<char>>,
    u: Set<Seq<char>>,
)
    requires
        u == a.union(b),
    ensures
        forall|p: Seq<char>| #[trigger]
            roots_in(c, home, u).contains(p) <==> roots_in(c, home, a).contains(p) || roots_in(
                c,
                home,
                b,
            ).contains(p),
        forall|p: Seq<char>| #[trigger]
            repos_in(c, home, u).contains(p) <==> repos_in(c, home, a).contains(p) || repos_in(
                c,
                home,
                b,
            ).contains(p),
{
    assert forall|p: Seq<char>| #[trigger]
        roots_in(c, home, u).contains(p) <==> roots_in(c, home, a).contains(p) || roots_in(
            c,
            home,
            b,
        ).contains(p) by {
        if roots_in(c, home, a).contains(p) {
            let x = choose|x: Seq<char>| #[trigger]
                a.contains(x) && lookup(c, x) is Some && all_expanded(
                    lookup(c, x)->0.roots,
                    home,
                ).contains(p);
            assert(u.contains(x));
        }
        if roots_in(c, home, b).contains(p) {
            let x = choose|x: Seq<char>| #[trigger]
                b.contains(x) && lookup(c, x) is Some && all_expanded(
                    lookup(c, x)->0.roots,
                    home,
                ).contains(p);
            assert(u.contains(x));
        }
        if roots_in(c, home, u).contains(p) {
            let x = choose|x: Seq<char>| #[trigger]
                u.contains(x) && lookup(c, x) is Some && all_expanded(
                    lookup(c, x)->0.roots,
                    home,
                ).contains(p);
            assert(a.contains(x) || b.contains(x));
        }
    }
    assert forall|p: Seq<char>| #[trigger]
        repos_in(c, home, u).contains(p) <==> repos_in(c, home, a).contains(p) || repos_in(
            c,
            home,
            b,
        ).contains(p) by {
        if repos_in(c, home, a).contains(p) {
            let x = choose|x: Seq<char>| #[trigger]
                a.contains(x) && lookup(c, x) is Some && all_expanded(
                    lookup(c, x)->0.repos,
                    home,
                ).contains(p);
            assert(u.contains(x));
        }
        if repos_in(c, home, b).contains(p) {
            let x = choose|x: Seq<char>| #[trigger]
                b.contains(x) && lookup(c, x) is Some && all_expanded(
                    lookup(c, x)->0.repos,
                    home,
                ).contains(p);
            assert(u.contains(x));
        }
        if repos_in(c, home, u).contains(p) {
            let x = choose|x: Seq<char>| #[trigger]
                u.contains(x) && lookup(c, x) is Some && all_expanded(
                    lookup(c, x)->0.repos,
                    home,
                ).contains(p);
            assert(a.contains(x) || b.contains(x));
        }
    }
}

// ---------------------------------------------------------------------------
// Laws
// ---------------------------------------------------------------------------

/// The workspaces that `d` reaches through `includes`.
pub open spec fn reach_of(c: Seq<Decl>, d: Decl) -> Set<Seq<char>> {
    Set::new(|x: Seq<char>| reached(c, d.includes, x))
}

/// Nesting flattens: a composed workspace has its own members first, unmoved,
/// and behind them the members of every workspace it reaches, directly or not,
/// each of them once.
pub proof fn composing_appends_what_is_reached(
    c: Seq<Decl>,
    home: Option<Seq<char>>,
    d: Decl,
    g: GroupView,
)
    requires
        group_of(c, home, d) == Ok::<GroupView, FaultView>(g),
    ensures
        g.name == d.name,
        g.linked,
        grown(all_expanded(d.roots, home), g.roots, roots_in(c, home, reach_of(c, d))),
        grown(all_expanded(d.repos, home), g.repos, repos_in(c, home, reach_of(c, d))),
{
    let st = own_members(d, home);
    let path = seq![d.name];
    let f = fold(c, home, d.includes, path, st)->Ok_0;
    fold_grows(c, home, d.includes, path, st);
    done_is_reached(c, home, d);
    assert(f.done.difference(st.done) =~= f.done);
}

proof fn done_is_reached(c: Seq<Decl>, home: Option<Seq<char>>, d: Decl)
    requires
        group_of(c, home, d) is Ok,
    ensures
        fold(c, home, d.includes, seq![d.name], own_members(d, home))->Ok_0.done == reach_of(c, d),
        !reach_of(c, d).contains(d.name),
        forall|x: Seq<char>| #[trigger] reach_of(c, d).contains(x) ==> lookup(c, x) is Some,
{
    let st = own_members(d, home);
    let path = seq![d.name];
    let f = fold(c, home, d.includes, path, st)->Ok_0;
    fold_is_sound(c, home, d.includes, path, st);
    assert(closed_under(c, f.done));
    assert forall|x: Seq<char>| f.done.contains(x) <==> reach_of(c, d).contains(x) by {
        if reach_of(c, d).contains(x) {
            assert(reached(c, d.includes, x));
        }
        if f.done.contains(x) {
            assert forall|s: Set<Seq<char>>|
                #[trigger] closed_under(c, s) && (forall|n: Seq<char>|
                    d.includes.contains(n) ==> s.contains(n)) implies s.contains(x) by {
                fold_is_tight(c, home, d.includes, path, st, s);
            }
        }
    }
    assert(f.done =~= reach_of(c, d));
    assert(path[0] == d.name);
    assert(path.contains(d.name));
}

/// A workspace that includes itself, directly or through others, is refused:
/// nothing that resolves has one.
pub proof fn a_cycle_is_refused(c: Seq<Decl>, home: Option<Seq<char>>, i: int)
    requires
        0 <= i < c.len(),
        reach_of(c, c[i]).contains(c[i].name),
    ensures
        group_of(c, home, c[i]) is Err,
        linked_groups(c, home, c.len()) is Err,
{
    if group_of(c, home, c[i]) is Ok {
        done_is_reached(c, home, c[i]);
    }
    fault_spreads(c, home, i, c.len());
}

/// A workspace that reaches a name nobody declares is refused.
pub proof fn an_unknown_name_is_refused(
    c: Seq<Decl>,
    home: Option<Seq<char>>,
    i: int,
    name: Seq<char>,
)
    requires
        0 <= i < c.len(),
        reach_of(c, c[i]).contains(name),
        lookup(c, name) is None,
    ensures
        group_of(c, home, c[i]) is Err,
        linked_groups(c, home, c.len()) is Err,
{
    if group_of(c, home, c[i]) is Ok {
        done_is_reached(c, home, c[i]);
    }
    fault_spreads(c, home, i, c.len());
}

proof fn fault_spreads(c: Seq<Decl>, home: Option<Seq<char>>, i: int, n: nat)
    requires
        0 <= i < n,
        group_of(c, home, c[i]) is Err,
    ensures
        linked_groups(c, home, n) is Err,
    decreases n,
{
    if i < n - 1 {
        fault_spreads(c, home, i, (n - 1) as nat);
    }
}

/// Each workspace of `path` includes the next.
pub open spec fn is_chain(c: Seq<Decl>, path: Seq<Seq<char>>) -> bool {
    forall|k: int|
        0 <= k < path.len() - 1 ==> includes_of(c, #[trigger] path[k]).contains(path[k + 1])
}

proof fn chain_extends(c: Seq<Decl>, path: Seq<Seq<char>>, n: Seq<char>)
    requires
        path.len() > 0,
        is_chain(c, path),
        includes_of(c, path.last()).contains(n),
    ensures
        is_chain(c, path.push(n)),
{
    let q = path.push(n);
    assert forall|k: int| 0 <= k < q.len() - 1 implies includes_of(c, #[trigger] q[k]).contains(
        q[k + 1],
    ) by {
        if k < path.len() - 1 {
            assert(q[k] == path[k]);
            assert(q[k + 1] == path[k + 1]);
        }
    }
}

/// What a fault claims is so.
pub open spec fn fault_is_true(c: Seq<Decl>, f: FaultView) -> bool {
    match f {
        FaultView::Duplicate(_) => false,
        FaultView::Cycle(path) => {
            &&& path.len() >= 2
            &&& is_chain(c, path)
            &&& path.drop_last().contains(path.last())
        },
        FaultView::Unknown { referrer, name, known } => {
            &&& includes_of(c, referrer).contains(name)
            &&& lookup(c, name) is None
            &&& known == decl_names(c)
        },
    }
}

proof fn fold_fault_is_true(
    c: Seq<Decl>,
    home: Option<Seq<char>>,
    list: Seq<Seq<char>>,
    path: Seq<Seq<char>>,
    st: Folded,
)
    requires
        path.len() > 0,
        is_chain(c, path),
        forall|n: Seq<char>| #[trigger] list.contains(n) ==> includes_of(c, path.last()).contains(n),
        fold(c, home, list, path, st) is Err,
    ensures
        fault_is_true(c, fold(c, home, list, path, st)->Err_0),
    decreases left(c, path), list.len(),
{
    if list.len() > 0 {
        let n = list[0];
        let rest = list.drop_first();
        assert(list.contains(n));
        assert forall|m: Seq<char>| #[trigger] rest.contains(m) implies includes_of(
            c,
            path.last(),
        ).contains(m) by {
            let i = choose|i: int| 0 <= i < rest.len() && rest[i] == m;
            assert(list[i + 1] == m);
            assert(list.contains(m));
        }
        chain_extends(c, path, n);
        if path.contains(n) {
            assert(path.push(n).drop_last() =~= path);
        } else if lookup(c, n) is Some {
            if st.done.contains(n) {
                fold_fault_is_true(c, home, rest, path, st);
            } else {
                left_shrinks(c, path, n);
                let d = lookup(c, n)->0;
                let with = with_members(st, Decl { name: n, ..d }, home);
                if fold(c, home, d.includes, path.push(n), with) is Err {
                    fold_fault_is_true(c, home, d.includes, path.push(n), with);
                } else {
                    let inner = fold(c, home, d.includes, path.push(n), with)->Ok_0;
                    fold_fault_is_true(c, home, rest, path, inner);
                }
            }
        }
    }
}

/// A refusal is never made up: the path it names is a chain of includes that
/// comes back to a workspace on it, or the name it calls unknown is included and
/// is declared nowhere.
pub proof fn a_refusal_names_what_is_wrong(c: Seq<Decl>, home: Option<Seq<char>>, d: Decl)
    requires
        lookup(c, d.name) == Some(d),
        group_of(c, home, d) is Err,
    ensures
        fault_is_true(c, group_of(c, home, d)->Err_0),
{
    fold_fault_is_true(c, home, d.includes, seq![d.name], own_members(d, home));
}

/// A configuration without `includes` resolves exactly as it is declared.
pub proof fn without_includes_groups_are_as_declared(
    c: Seq<Decl>,
    home: Option<Seq<char>>,
    n: nat,
)
    requires
        n <= c.len(),
        forall|i: int| 0 <= i < c.len() ==> (#[trigger] c[i]).includes.len() == 0,
    ensures
        linked_groups(c, home, n) is Ok,
        linked_groups(c, home, n)->Ok_0.len() == n,
        forall|i: int|
            0 <= i < n ==> #[trigger] linked_groups(c, home, n)->Ok_0[i] == (GroupView {
                name: c[i].name,
                roots: all_expanded(c[i].roots, home),
                repos: all_expanded(c[i].repos, home),
                linked: true,
            }),
    decreases n,
{
    if n > 0 {
        without_includes_groups_are_as_declared(c, home, (n - 1) as nat);
        assert(c[n - 1].includes.len() == 0);
    }
}

/// The order in which workspaces are declared does not matter to what one of
/// them is composed of: declarations under which every name means the same give
/// the same groups. (What a complaint about an unknown name lists does follow
/// the order.)
pub proof fn declaration_order_does_not_matter(
    c: Seq<Decl>,
    e: Seq<Decl>,
    home: Option<Seq<char>>,
    list: Seq<Seq<char>>,
    path: Seq<Seq<char>>,
    st: Folded,
)
    requires
        forall|n: Seq<char>| #[trigger] lookup(c, n) == lookup(e, n),
    ensures
        match fold(c, home, list, path, st) {
            Ok(f) => fold(e, home, list, path, st) == Ok::<Folded, FaultView>(f),
            Err(FaultView::Unknown { referrer, name, .. }) => fold(e, home, list, path, st)
                == Err::<Folded, FaultView>(
                FaultView::Unknown { referrer, name, known: decl_names(e) },
            ),
            Err(x) => fold(e, home, list, path, st) == Err::<Folded, FaultView>(x),
        },
    decreases left(c, path), list.len(),
{
    if list.len() > 0 {
        let n = list[0];
        assert(lookup(c, n) == lookup(e, n));
        if !path.contains(n) && lookup(c, n) is Some {
            let d = lookup(c, n)->0;
            if st.done.contains(n) {
                declaration_order_does_not_matter(c, e, home, list.drop_first(), path, st);
            } else {
                left_shrinks(c, path, n);
                let with = with_members(st, Decl { name: n, ..d }, home);
                declaration_order_does_not_matter(c, e, home, d.includes, path.push(n), with);
                if fold(c, home, d.includes, path.push(n), with) is Ok {
                    let inner = fold(c, home, d.includes, path.push(n), with)->Ok_0;
                    declaration_order_does_not_matter(c, e, home, list.drop_first(), path, inner);
                }
            }
        }
    }
}

proof fn linked_names(c: Seq<Decl>, home: Option<Seq<char>>, n: nat)
    requires
        n <= c.len(),
        linked_groups(c, home, n) is Ok,
    ensures
        linked_groups(c, home, n)->Ok_0.len() == n,
        forall|i: int|
            0 <= i < n ==> (#[trigger] linked_groups(c, home, n)->Ok_0[i]).name == c[i].name,
    decreases n,
{
    if n > 0 {
        linked_names(c, home, (n - 1) as nat);
    }
}

proof fn first_repeat(names: Seq<Seq<char>>, i: int, j: int) -> (k: int)
    requires
        0 <= i < j < names.len(),
        names[i] == names[j],
    ensures
        dup_at(names, k),
    decreases j,
{
    assert(names.take(j)[i] == names[j]);
    if forall|m: int| 0 <= m < j ==> !(#[trigger] names.take(m)).contains(names[m]) {
        j
    } else {
        let m = choose|m: int| 0 <= m < j && (#[trigger] names.take(m)).contains(names[m]);
        let a = choose|a: int| 0 <= a < names.take(m).len() && names.take(m)[a] == names[m];
        first_repeat(names, a, m)
    }
}

/// No two groups of a resolution have the same name, linked or not.
pub proof fn group_names_are_unique(
    c: Seq<Decl>,
    home: Option<Seq<char>>,
    solos: Seq<Seq<char>>,
    r: Result<Vec<ResolvedWorkspace>, ConfigFault>,
    i: int,
    j: int,
)
    requires
        resolved(c, home, solos, r),
        r is Ok,
        0 <= i < j < r->Ok_0@.len(),
    ensures
        r->Ok_0@[i].name@ != r->Ok_0@[j].name@,
{
    let out = r->Ok_0@;
    let gs = linked_groups(c, home, c.len())->Ok_0;
    linked_names(c, home, c.len());
    if j < gs.len() {
        assert(out[i]@ == gs[i]);
        assert(out[j]@ == gs[j]);
        let names = decl_names(c);
        if names[i] == names[j] {
            let k = first_repeat(names, i, j);
            assert(dup_at(names, k));
        }
    } else {
        let used = group_names(out.take(j));
        assert(deduped(used, crate::config::workspaces::solo_base(solos[j - gs.len()]), out[j].name@));
        assert(used[i] == out[i].name@);
    }
}

/// A fault of the configuration is found whatever repositories a scan finds, and
/// is the same one: it can be reported before anything is scanned.
pub proof fn faults_need_no_scan(
    c: Seq<Decl>,
    home: Option<Seq<char>>,
    before: Seq<Seq<char>>,
    after: Seq<Seq<char>>,
    r: Result<Vec<ResolvedWorkspace>, ConfigFault>,
    s: Result<Vec<ResolvedWorkspace>, ConfigFault>,
)
    requires
        resolved(c, home, before, r),
        resolved(c, home, after, s),
    ensures
        r is Err <==> s is Err,
        r is Err ==> r->Err_0@ == s->Err_0@,
{
    let names = decl_names(c);
    if exists|i: int| dup_at(names, i) {
        let i = choose|i: int|
            #[trigger] dup_at(names, i) && r->Err_0@ == FaultView::Duplicate(names[i]);
        let j = choose|j: int|
            #[trigger] dup_at(names, j) && s->Err_0@ == FaultView::Duplicate(names[j]);
        if i < j {
            assert(names.take(i).contains(names[i]));
        } else if j < i {
            assert(names.take(j).contains(names[j]));
        }
    }
}

/// Includes are read from front to back, and each with all it includes before the
/// next: reading two lists in a row is reading the one and then, with what that
/// gave, the other.
pub proof fn includes_are_read_in_order(
    c: Seq<Decl>,
    home: Option<Seq<char>>,
    xs: Seq<Seq<char>>,
    ys: Seq<Seq<char>>,
    path: Seq<Seq<char>>,
    st: Folded,
)
    ensures
        fold(c, home, xs + ys, path, st) == (match fold(c, home, xs, path, st) {
            Ok(mid) => fold(c, home, ys, path, mid),
            Err(e) => Err(e),
        }),
    decreases xs.len(),
{
    if xs.len() == 0 {
        assert(xs + ys =~= ys);
    } else {
        let n = xs[0];
        assert((xs + ys)[0] == n);
        assert((xs + ys).drop_first() =~= xs.drop_first() + ys);
        if !path.contains(n) && lookup(c, n) is Some {
            if st.done.contains(n) {
                includes_are_read_in_order(c, home, xs.drop_first(), ys, path, st);
            } else {
                let d = lookup(c, n)->0;
                let inner = fold(
                    c,
                    home,
                    d.includes,
                    path.push(n),
                    with_members(st, Decl { name: n, ..d }, home),
                );
                if let Ok(mid) = inner {
                    includes_are_read_in_order(c, home, xs.drop_first(), ys, path, mid);
                }
            }
        }
    }
}

/// An included workspace's own members come before those of what it includes:
/// directly behind what was there, those that were not there, each once, in their
/// own order.
pub proof fn own_members_come_first(
    c: Seq<Decl>,
    home: Option<Seq<char>>,
    name: Seq<char>,
    path: Seq<Seq<char>>,
    st: Folded,
)
    requires
        lookup(c, name) is Some,
        !path.contains(name),
        !st.done.contains(name),
        fold(c, home, seq![name], path, st) is Ok,
    ensures
        ({
            let d = lookup(c, name)->0;
            let f = fold(c, home, seq![name], path, st)->Ok_0;
            let roots = merged(st.roots, all_expanded(d.roots, home));
            let repos = merged(st.repos, all_expanded(d.repos, home));
            &&& roots.len() <= f.roots.len() && f.roots.take(roots.len() as int) == roots
            &&& repos.len() <= f.repos.len() && f.repos.take(repos.len() as int) == repos
            &&& d.includes.len() == 0 ==> f.roots == roots && f.repos == repos
        }),
{
    let d = lookup(c, name)->0;
    let with = with_members(st, Decl { name, ..d }, home);
    let inner = fold(c, home, d.includes, path.push(name), with);
    let rest = seq![name].drop_first();
    assert(rest.len() == 0);
    if let Ok(mid) = inner {
        assert(fold(c, home, rest, path, mid) == Ok::<Folded, FaultView>(mid));
    }
    assert(seq![name][0] == name);
    left_shrinks(c, path, name);
    assert(fold(c, home, seq![name], path, st) == inner);
    fold_grows(c, home, d.includes, path.push(name), with);
}

/// A name refers to the first declaration of that name, and to none where nothing
/// is declared under it.
pub proof fn a_name_means_its_first_declaration(c: Seq<Decl>, name: Seq<char>)
    ensures
        forall|i: int|
            #![trigger c[i]]
            0 <= i < c.len() && c[i].name == name && (forall|j: int|
                0 <= j < i ==> (#[trigger] c[j]).name != name) ==> lookup(c, name) == Some(c[i]),
        (forall|j: int| 0 <= j < c.len() ==> (#[trigger] c[j]).name != name) ==> lookup(c, name)
            is None,
    decreases c.len(),
{
    if c.len() > 0 {
        let rest = c.drop_first();
        a_name_means_its_first_declaration(rest, name);
        assert forall|i: int|
            #![trigger c[i]]
            0 <= i < c.len() && c[i].name == name && (forall|j: int|
                0 <= j < i ==> (#[trigger] c[j]).name != name) implies lookup(c, name) == Some(
            c[i],
        ) by {
            if i > 0 {
                assert(c[0].name != name);
                assert(rest[i - 1] == c[i]);
                assert forall|j: int| 0 <= j < i - 1 implies (#[trigger] rest[j]).name != name by {
                    assert(rest[j] == c[j + 1]);
                }
            }
        }
        if forall|j: int| 0 <= j < c.len() ==> (#[trigger] c[j]).name != name {
            assert(c[0].name != name);
            assert forall|j: int| 0 <= j < rest.len() implies (#[trigger] rest[j]).name != name by {
                assert(rest[j] == c[j + 1]);
            }
        }
    }
}

/// What a configuration declares: each entry under its own name with its own
/// lists, in order, and before them the `[workspace]` table under the name
/// `default`, where it names any root or repository, and nothing else.
pub proof fn every_table_is_declared(c: Config)
    ensures
        ({
            let some = list_of(c.workspace.roots).len() > 0 || list_of(c.workspace.repos).len() > 0;
            let at = if some {
                1int
            } else {
                0int
            };
            &&& c.decls().len() == at + c.workspaces@.len()
            &&& some ==> c.decls()[0].name == "default"@ && c.decls()[0].roots == list_of(
                c.workspace.roots,
            ) && c.decls()[0].repos == list_of(c.workspace.repos) && c.decls()[0].includes.len()
                == 0
            &&& forall|i: int|
                #![trigger c.workspaces@[i]]
                0 <= i < c.workspaces@.len() ==> {
                    let d = c.decls()[at + i];
                    d.name == c.workspaces@[i].name@ && d.roots == list_of(c.workspaces@[i].roots)
                        && d.repos == list_of(c.workspaces@[i].repos) && d.includes == list_of(
                        c.workspaces@[i].includes,
                    )
                }
        }),
{
}

/// A group's name is the one that is asked for wherever that is free; where it is
/// taken, it is that name with the least number from 2 on that makes it free.
pub proof fn a_taken_name_is_numbered(used: Seq<Seq<char>>, base: Seq<char>, name: Seq<char>)
    requires
        deduped(used, base, name),
    ensures
        !used.contains(name),
        !used.contains(base) ==> name == base,
        used.contains(base) && !used.contains(base + "-"@ + decimal_of(2)) ==> name == base + "-"@
            + decimal_of(2),
        used.contains(base) && used.contains(base + "-"@ + decimal_of(2)) && !used.contains(
            base + "-"@ + decimal_of(3),
        ) ==> name == base + "-"@ + decimal_of(3),
        used.contains(base) ==> exists|n: nat|
            2 <= n && name == base + "-"@ + #[trigger] decimal_of(n) && forall|m: nat|
                2 <= m < n ==> used.contains(base + "-"@ + #[trigger] decimal_of(m)),
{
    if used.contains(base) {
        let n = choose|n: nat|
            {
                &&& 2 <= n
                &&& name == #[trigger] numbered(base, n)
                &&& forall|m: nat| 2 <= m < n ==> used.contains(#[trigger] numbered(base, m))
            };
        assert forall|m: nat| 2 <= m < n implies used.contains(base + "-"@ + #[trigger] decimal_of(m)) by {
            assert(used.contains(numbered(base, m)));
        }
        assert(name == base + "-"@ + decimal_of(n));
        if n > 2 {
            assert(used.contains(numbered(base, 2)));
        }
        if n > 3 {
            assert(used.contains(numbered(base, 3)));
        }
    }
}

/// Standalone repositories are each served once, by whatever root they were found
/// under or name they were given, and nothing else is.
pub proof fn every_standalone_repo_is_served(
    w: WorkspaceConfig,
    home: Option<Seq<char>>,
    found: Seq<Vec<String>>,
)
    ensures
        forall|i: int, j: int|
            #![trigger found[i]@[j]]
            0 <= i < found.len() && 0 <= j < found[i]@.len() ==> has_path(
                standalone_of(w, home, found),
                found[i]@[j]@,
            ),
        forall|i: int|
            #![trigger list_of(w.repos)[i]]
            0 <= i < list_of(w.repos).len() ==> has_path(
                standalone_of(w, home, found),
                expanded(list_of(w.repos)[i], home),
            ),
        forall|j: int, k: int|
            #![trigger standalone_of(w, home, found)[j], standalone_of(w, home, found)[k]]
            0 <= j < k < standalone_of(w, home, found).len() ==> components(
                standalone_of(w, home, found)[j],
            ) != components(standalone_of(w, home, found)[k]),
        forall|k: int|
            #![trigger standalone_of(w, home, found)[k]]
            0 <= k < standalone_of(w, home, found).len() ==> all_found(found).contains(
                standalone_of(w, home, found)[k],
            ) || all_expanded(list_of(w.repos), home).contains(standalone_of(w, home, found)[k]),
{
    let f = all_found(found);
    let named = all_expanded(list_of(w.repos), home);
    let all = f + named;
    each_path_once(all);
    assert forall|i: int, j: int|
        #![trigger found[i]@[j]]
        0 <= i < found.len() && 0 <= j < found[i]@.len() implies has_path(
        standalone_of(w, home, found),
        found[i]@[j]@,
    ) by {
        what_is_found_is_listed(found, i, j);
        let k = choose|k: int| 0 <= k < f.len() && f[k] == found[i]@[j]@;
        assert(all[k] == f[k]);
    }
    assert forall|i: int| #![trigger list_of(w.repos)[i]] 0 <= i < list_of(w.repos).len() implies has_path(
        standalone_of(w, home, found),
        expanded(list_of(w.repos)[i], home),
    ) by {
        assert(named[i] == expanded(list_of(w.repos)[i], home));
        assert(all[f.len() + i] == named[i]);
    }
    let out = standalone_of(w, home, found);
    assert forall|k: int| #![trigger out[k]] 0 <= k < out.len() implies f.contains(out[k])
        || named.contains(out[k]) by {
        assert(all.contains(out[k]));
        let m = choose|m: int| 0 <= m < all.len() && all[m] == out[k];
        if m < f.len() {
            assert(f[m] == out[k]);
        } else {
            assert(named[m - f.len()] == out[k]);
        }
    }
}

proof fn what_is_found_is_listed(found: Seq<Vec<String>>, i: int, j: int)
    requires
        0 <= i < found.len(),
        0 <= j < found[i]@.len(),
    ensures
        all_found(found).contains(found[i]@[j]@),
    decreases found.len(),
{
    let front = all_found(found.drop_last());
    let last = views(found.last()@);
    if i < found.len() - 1 {
        what_is_found_is_listed(found.drop_last(), i, j);
        let k = choose|k: int| 0 <= k < front.len() && front[k] == found[i]@[j]@;
        assert((front + last)[k] == front[k]);
    } else {
        assert(last[j] == found[i]@[j]@);
        assert((front + last)[front.len() + j] == last[j]);
    }
}

/// A resolution gives one linked group for each declaration, in order and under
/// its name, and behind them one group for each standalone repository, which is
/// linked to nothing and holds that repository alone.
pub proof fn a_resolution_serves_everything(
    c: Seq<Decl>,
    home: Option<Seq<char>>,
    solos: Seq<Seq<char>>,
    r: Result<Vec<ResolvedWorkspace>, ConfigFault>,
)
    requires
        resolved(c, home, solos, r),
        r is Ok,
    ensures
        r->Ok_0@.len() == c.len() + solos.len(),
        forall|i: int|
            #![trigger r->Ok_0@[i]]
            0 <= i < c.len() ==> r->Ok_0@[i].linked && r->Ok_0@[i].name@ == c[i].name && group_of(
                c,
                home,
                c[i],
            ) == Ok::<GroupView, FaultView>(r->Ok_0@[i]@),
        forall|i: int|
            #![trigger r->Ok_0@[i]]
            c.len() <= i < r->Ok_0@.len() ==> !r->Ok_0@[i].linked && r->Ok_0@[i].roots@.len() == 0
                && views(r->Ok_0@[i].repos@) == seq![solos[i - c.len()]],
{
    let out = r->Ok_0@;
    let gs = linked_groups(c, home, c.len())->Ok_0;
    linked_names(c, home, c.len());
    linked_are_groups(c, home, c.len());
    assert forall|i: int|
        #![trigger out[i]]
        0 <= i < c.len() implies out[i].linked && out[i].name@ == c[i].name && group_of(
        c,
        home,
        c[i],
    ) == Ok::<GroupView, FaultView>(out[i]@) by {
        assert(out[i]@ == gs[i]);
        assert(group_of(c, home, c[i]) == Ok::<GroupView, FaultView>(gs[i]));
    }
}

proof fn linked_are_groups(c: Seq<Decl>, home: Option<Seq<char>>, n: nat)
    requires
        n <= c.len(),
        linked_groups(c, home, n) is Ok,
    ensures
        linked_groups(c, home, n)->Ok_0.len() == n,
        forall|i: int|
            #![trigger linked_groups(c, home, n)->Ok_0[i]]
            0 <= i < n ==> group_of(c, home, c[i]) == Ok::<GroupView, FaultView>(
                linked_groups(c, home, n)->Ok_0[i],
            ),
    decreases n,
{
    if n > 0 {
        linked_are_groups(c, home, (n - 1) as nat);
    }
}

/// A complaint about the workspace tables names what it is about: the name declared
/// twice, every step of the cycle, or who asked for which name and every name there
/// is.
pub proof fn a_fault_names_its_cause(f: FaultView, i: int)
    ensures
        f matches FaultView::Duplicate(name) ==> contains(message_of(f), "`"@ + name),
        f is Cycle && 0 <= i < f->Cycle_0.len() ==> contains(
            message_of(f),
            "`"@ + f->Cycle_0[i] + "`"@,
        ),
        f is Unknown ==> contains(message_of(f), "`"@ + f->referrer + "`"@) && contains(
            message_of(f),
            "`"@ + f->name + "`"@,
        ),
        f is Unknown && 0 <= i < f->known.len() ==> contains(message_of(f), f->known[i]),
{
    let none = Seq::<char>::empty();
    let whole = message_of(f);
    match f {
        FaultView::Duplicate(name) => {
            let lead = "duplicate workspace name "@;
            reveal_strlit("duplicate workspace name `");
            reveal_strlit("duplicate workspace name ");
            reveal_strlit("`");
            assert("duplicate workspace name `"@ =~= lead + "`"@);
            assert(lead + ("`"@ + name) + MUST_BE_UNIQUE@ =~= whole);
            crate::text::holds_its_middle(lead, "`"@ + name, MUST_BE_UNIQUE@);
        },
        FaultView::Cycle(path) => {
            let steps = join_of(ticked(path), " → "@);
            crate::text::holds_its_middle("workspace include cycle: "@, steps, NO_CYCLES@);
            if 0 <= i < path.len() {
                crate::text::join_holds_each(ticked(path), " → "@, i);
                assert(ticked(path)[i] == "`"@ + path[i] + "`"@);
                crate::text::contains_within(whole, steps, "`"@ + path[i] + "`"@);
            }
        },
        FaultView::Unknown { referrer, name, known } => {
            unknown_is_named(referrer, name, known, i);
        },
    }
}

proof fn unknown_is_named(
    referrer: Seq<char>,
    name: Seq<char>,
    known: Seq<Seq<char>>,
    i: int,
)
    ensures
        ({
            let whole = message_of(FaultView::Unknown { referrer, name, known });
            &&& contains(whole, "`"@ + referrer + "`"@)
            &&& contains(whole, "`"@ + name + "`"@)
            &&& 0 <= i < known.len() ==> contains(whole, known[i])
        }),
{
    let whole = message_of(FaultView::Unknown { referrer, name, known });
    let t = "`"@;
    let a = "`includes` in workspace "@;
    let b = ": no workspace named "@;
    let c = " (known: "@;
    let list = join_of(known, ", "@);
    reveal_strlit("`");
    reveal_strlit("`includes` in workspace `");
    reveal_strlit("`includes` in workspace ");
    reveal_strlit("`: no workspace named `");
    reveal_strlit(": no workspace named ");
    reveal_strlit("` (known: ");
    reveal_strlit(" (known: ");
    assert("`includes` in workspace `"@ =~= a + t);
    assert("`: no workspace named `"@ =~= t + b + t);
    assert("` (known: "@ =~= t + c);
    let who = t + referrer + t;
    let what = t + name + t;
    assert(a + who + (b + what + c + list + ONLY_NAMED@) =~= whole);
    crate::text::holds_its_middle(a, who, b + what + c + list + ONLY_NAMED@);
    assert(a + who + b + what + (c + list + ONLY_NAMED@) =~= whole);
    crate::text::holds_its_middle(a + who + b, what, c + list + ONLY_NAMED@);
    assert(a + who + b + what + c + list + ONLY_NAMED@ =~= whole);
    crate::text::holds_its_middle(a + who + b + what + c, list, ONLY_NAMED@);
    if 0 <= i < known.len() {
        crate::text::join_holds_each(known, ", "@, i);
        crate::text::contains_within(whole, list, known[i]);
    }
}

/// A standalone repository is called after its directory, and one without a name,
/// such as the root, is called `repo`.
pub proof fn a_repo_is_called_after_its_directory(path: Seq<char>)
    ensures
        file_name_of(path) is Some ==> solo_base(path) == file_name_of(path)->0,
        file_name_of(path) is None ==> solo_base(path) == "repo"@,
{
}

} // verus!
