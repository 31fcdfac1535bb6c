//! Resolving the workspace tables: the linked groups, composed through their
//! `includes`, and one unlinked group per standalone repository.
use vstd::prelude::*;

use crate::config::paths::{
    all_expanded, expand_tilde_all, file_name, file_name_of, first_of_each, is_listed,
};
use crate::config::{list_of, list_or_empty, Config, NamedWorkspace, WorkspaceConfig};
use crate::text::{
    contains, copy_all, decimal_injective, decimal_of, decimal_wide, is_among, join, join_of,
    merge_into, merged, opt_view, same, views,
};

verus! {

// ---------------------------------------------------------------------------
// What is declared
// ---------------------------------------------------------------------------

/// One declared workspace: its name, its members as they are written, and the
/// workspaces it includes.
pub struct Decl {
    pub name: Seq<char>,
    pub roots: Seq<Seq<char>>,
    pub repos: Seq<Seq<char>>,
    pub includes: Seq<Seq<char>>,
}

/// What a `[[workspaces]]` entry declares.
pub open spec fn entry_of(w: NamedWorkspace) -> Decl {
    Decl {
        name: w.name@,
        roots: list_of(w.roots),
        repos: list_of(w.repos),
        includes: list_of(w.includes),
    }
}

/// What the entries declare.
pub open spec fn entries_of(v: Seq<NamedWorkspace>) -> Seq<Decl> {
    v.map_values(|w: NamedWorkspace| entry_of(w))
}

/// What the `[workspace]` table declares: a workspace named `default`, if it
/// names anything.
pub open spec fn legacy_of(w: WorkspaceConfig) -> Seq<Decl> {
    if w.names_none() {
        Seq::empty()
    } else {
        seq![
            Decl {
                name: "default"@,
                roots: list_of(w.roots),
                repos: list_of(w.repos),
                includes: Seq::empty(),
            },
        ]
    }
}

impl Config {
    /// The declared workspaces: `[workspace]` first, then each `[[workspaces]]`
    /// entry.
    pub open spec fn decls(self) -> Seq<Decl> {
        legacy_of(self.workspace) + entries_of(self.workspaces@)
    }
}

/// The names of the declared workspaces.
pub open spec fn decl_names(c: Seq<Decl>) -> Seq<Seq<char>> {
    c.map_values(|d: Decl| d.name)
}

/// The declaration a name refers to: the first of that name.
pub open spec fn lookup(c: Seq<Decl>, name: Seq<char>) -> Option<Decl>
    decreases c.len(),
{
    if c.len() == 0 {
        None
    } else if c[0].name == name {
        Some(c[0])
    } else {
        lookup(c.drop_first(), name)
    }
}

proof fn lookup_facts(c: Seq<Decl>, name: Seq<char>)
    ensures
        lookup(c, name) is Some <==> decl_names(c).contains(name),
        lookup(c, name) matches Some(d) ==> d.name == name && c.contains(d),
    decreases c.len(),
{
    let names = decl_names(c);
    if c.len() > 0 {
        assert(names[0] == c[0].name);
        assert(c.contains(c[0]));
        if c[0].name != name {
            let rest = c.drop_first();
            lookup_facts(rest, name);
            if decl_names(rest).contains(name) {
                let i = choose|i: int|
                    0 <= i < decl_names(rest).len() && decl_names(rest)[i] == name;
                assert(names[i + 1] == name);
                let d = lookup(rest, name)->0;
                let k = choose|k: int| 0 <= k < rest.len() && rest[k] == d;
                assert(c[k + 1] == d);
            }
            if names.contains(name) {
                let i = choose|i: int| 0 <= i < names.len() && names[i] == name;
                assert(decl_names(rest)[i - 1] == name);
            }
        }
    }
}

// ---------------------------------------------------------------------------
// Folding the included workspaces in
// ---------------------------------------------------------------------------

/// What has been folded into a workspace so far.
pub struct Folded {
    /// The workspaces folded in.
    pub done: Set<Seq<char>>,
    pub roots: Seq<Seq<char>>,
    pub repos: Seq<Seq<char>>,
}

/// Why the workspace tables cannot be resolved.
pub enum FaultView {
    /// Two linked workspaces have this name.
    Duplicate(Seq<char>),
    /// These workspaces include each other, the last being the first to recur.
    Cycle(Seq<Seq<char>>),
    /// `referrer` includes `name`, and only `known` are declared.
    Unknown { referrer: Seq<char>, name: Seq<char>, known: Seq<Seq<char>> },
}

/// How many declared names are not on the path.
pub open spec fn left(c: Seq<Decl>, path: Seq<Seq<char>>) -> nat {
    decl_names(c).to_set().difference(path.to_set()).len()
}

/// A name that is declared and not on the path leaves fewer once it is on it.
pub proof fn left_shrinks(c: Seq<Decl>, path: Seq<Seq<char>>, name: Seq<char>)
    requires
        lookup(c, name) is Some,
        !path.contains(name),
    ensures
        left(c, path.push(name)) < left(c, path),
{
    lookup_facts(c, name);
    let all = decl_names(c).to_set();
    vstd::seq_lib::seq_to_set_is_finite(decl_names(c));
    let a = all.difference(path.to_set());
    let b = all.difference(path.push(name).to_set());
    assert(a.contains(name));
    assert forall|x: Seq<char>| b.contains(x) <==> a.remove(name).contains(x) by {
        if path.push(name).contains(x) {
            let i = choose|i: int| 0 <= i < path.push(name).len() && path.push(name)[i] == x;
            if i < path.len() {
                assert(path[i] == x);
            }
        }
        if path.contains(x) {
            let i = choose|i: int| 0 <= i < path.len() && path[i] == x;
            assert(path.push(name)[i] == x);
        }
        assert(path.push(name)[path.len() as int] == name);
    }
    assert(b =~= a.remove(name));
}

/// `st` with the members of `d` folded in.
pub open spec fn with_members(st: Folded, d: Decl, home: Option<Seq<char>>) -> Folded {
    Folded {
        done: st.done.insert(d.name),
        roots: merged(st.roots, all_expanded(d.roots, home)),
        repos: merged(st.repos, all_expanded(d.repos, home)),
    }
}

/// Folds the workspaces `list` in, each with everything it includes, depth
/// first. `path` is the chain of workspaces whose includes are being read; a
/// name that recurs on it closes a cycle. A workspace reached a second time adds
/// nothing more.
pub open spec fn fold(
    c: Seq<Decl>,
    home: Option<Seq<char>>,
    list: Seq<Seq<char>>,
    path: Seq<Seq<char>>,
    st: Folded,
) -> Result<Folded, FaultView>
    decreases left(c, path), list.len(),
{
    if list.len() == 0 {
        Ok(st)
    } else if path.contains(list[0]) {
        Err(FaultView::Cycle(path.push(list[0])))
    } else {
        match lookup(c, list[0]) {
            None => Err(
                FaultView::Unknown { referrer: path.last(), name: list[0], known: decl_names(c) },
            ),
            Some(d) => if st.done.contains(list[0]) {
                fold(c, home, list.drop_first(), path, st)
            } else {
                proof {
                    left_shrinks(c, path, list[0]);
                }
                match fold(
                    c,
                    home,
                    d.includes,
                    path.push(list[0]),
                    with_members(st, Decl { name: list[0], ..d }, home),
                ) {
                    Err(e) => Err(e),
                    Ok(inner) => fold(c, home, list.drop_first(), path, inner),
                }
            },
        }
    }
}

/// Why the workspace tables cannot be resolved.
#[derive(Debug)]
pub enum ConfigFault {
    /// Two linked workspaces have this name.
    Duplicate(String),
    /// These workspaces include each other, the last being the first to recur.
    Cycle(Vec<String>),
    /// `referrer` includes `name`, and only `known` are declared.
    Unknown { referrer: String, name: String, known: Vec<String> },
}

impl View for ConfigFault {
    type V = FaultView;

    open spec fn view(&self) -> FaultView {
        match self {
            ConfigFault::Duplicate(n) => FaultView::Duplicate(n@),
            ConfigFault::Cycle(p) => FaultView::Cycle(views(p@)),
            ConfigFault::Unknown { referrer, name, known } => FaultView::Unknown {
                referrer: referrer@,
                name: name@,
                known: views(known@),
            },
        }
    }
}

/// The members declared for one name.
struct DeclaredMembers {
    roots: Vec<String>,
    repos: Vec<String>,
    includes: Vec<String>,
}

/// The state of one workspace's fold.
struct IncludeFold {
    done: Vec<String>,
    roots: Vec<String>,
    repos: Vec<String>,
}

impl IncludeFold {
    spec fn state(self) -> Folded {
        Folded {
            done: views(self.done@).to_set(),
            roots: views(self.roots@),
            repos: views(self.repos@),
        }
    }
}

proof fn lookup_prefix(c: Seq<Decl>, name: Seq<char>, i: int)
    requires
        0 <= i <= c.len(),
        forall|j: int| 0 <= j < i ==> (#[trigger] c[j]).name != name,
    ensures
        i < c.len() && c[i].name == name ==> lookup(c, name) == Some(c[i]),
        i == c.len() ==> lookup(c, name) is None,
    decreases i,
{
    if i > 0 {
        assert(c[0].name != name);
        let rest = c.drop_first();
        assert forall|j: int| 0 <= j < i - 1 implies (#[trigger] rest[j]).name != name by {
            assert(rest[j] == c[j + 1]);
        }
        lookup_prefix(rest, name, i - 1);
    }
}

proof fn lookup_rest(c: Seq<Decl>, d: Decl, name: Seq<char>)
    requires
        d.name != name,
    ensures
        lookup(seq![d] + c, name) == lookup(c, name),
{
    assert((seq![d] + c).drop_first() =~= c);
}

impl Config {
    /// What the workspace `name` declares, if there is one.
    fn declared_members(&self, name: &str) -> (r: Option<DeclaredMembers>)
        ensures
            r is Some <==> lookup(self.decls(), name@) is Some,
            r matches Some(m) ==> ({
                let d = lookup(self.decls(), name@)->0;
                &&& views(m.roots@) == d.roots
                &&& views(m.repos@) == d.repos
                &&& views(m.includes@) == d.includes
            }),
    {
        let ghost entries = entries_of(self.workspaces@);
        if !self.workspace.is_empty() {
            let ghost legacy = legacy_of(self.workspace)[0];
            assert(self.decls() =~= seq![legacy] + entries);
            if same(name, "default") {
                assert(self.decls()[0] == legacy);
                let includes: Vec<String> = Vec::new();
                assert(views(includes@) =~= Seq::empty());
                return Some(
                    DeclaredMembers {
                        roots: list_or_empty(&self.workspace.roots),
                        repos: list_or_empty(&self.workspace.repos),
                        includes,
                    },
                );
            }
            proof {
                lookup_rest(entries, legacy, name@);
            }
        } else {
            assert(self.decls() =~= entries);
        }
        assert(lookup(self.decls(), name@) == lookup(entries, name@));
        let mut i: usize = 0;
        while i < self.workspaces.len()
            invariant
                i <= self.workspaces@.len(),
                entries == entries_of(self.workspaces@),
                lookup(self.decls(), name@) == lookup(entries, name@),
                forall|j: int| 0 <= j < i ==> (#[trigger] entries[j]).name != name@,
            decreases self.workspaces@.len() - i,
        {
            let w = &self.workspaces[i];
            assert(entries[i as int] == entry_of(*w));
            proof {
                lookup_prefix(entries, name@, i as int);
            }
            if same(w.name.as_str(), name) {
                return Some(
                    DeclaredMembers {
                        roots: list_or_empty(&w.roots),
                        repos: list_or_empty(&w.repos),
                        includes: list_or_empty(&w.includes),
                    },
                );
            }
            i = i + 1;
        }
        proof {
            lookup_prefix(entries, name@, i as int);
        }
        None
    }

    /// The names an `includes` entry can refer to.
    fn includable_names(&self) -> (r: Vec<String>)
        ensures
            views(r@) == decl_names(self.decls()),
    {
        let mut r: Vec<String> = Vec::new();
        if !self.workspace.is_empty() {
            let s = "default".to_owned();
            r.push(s);
            assert(views(r@) =~= decl_names(legacy_of(self.workspace)));
        } else {
            assert(views(r@) =~= decl_names(legacy_of(self.workspace)));
        }
        let ghost head = legacy_of(self.workspace);
        let mut i: usize = 0;
        assert(decl_names(head + entries_of(self.workspaces@).take(0)) =~= decl_names(head));
        while i < self.workspaces.len()
            invariant
                i <= self.workspaces@.len(),
                head == legacy_of(self.workspace),
                views(r@) == decl_names(head + entries_of(self.workspaces@).take(i as int)),
            decreases self.workspaces@.len() - i,
        {
            let ghost was = r@;
            let ghost es = entries_of(self.workspaces@);
            r.push(self.workspaces[i].name.clone());
            proof {
                assert(es[i as int].name == self.workspaces@[i as int].name@);
                assert(head + es.take(i + 1) =~= (head + es.take(i as int)).push(es[i as int]));
                assert(decl_names(head + es.take(i + 1)) =~= decl_names(head + es.take(i as int)).push(
                    es[i as int].name,
                ));
                assert(views(r@) =~= views(was).push(es[i as int].name));
            }
            i = i + 1;
        }
        assert(entries_of(self.workspaces@).take(self.workspaces@.len() as int) =~= entries_of(
            self.workspaces@,
        ));
        r
    }

    /// Folds the workspaces `list` into `st`, each with everything it includes.
    fn fold_all(
        &self,
        home: &Option<String>,
        list: &Vec<String>,
        path: &mut Vec<String>,
        st: &mut IncludeFold,
    ) -> (r: Result<(), ConfigFault>)
        requires
            old(path)@.len() > 0,
        ensures
            match fold(
                self.decls(),
                opt_view(*home),
                views(list@),
                views(old(path)@),
                old(st).state(),
            ) {
                Ok(f) => r is Ok && final(st).state() == f && views(final(path)@) == views(
                    old(path)@,
                ),
                Err(e) => r matches Err(x) && x@ == e,
            },
        decreases left(self.decls(), views(old(path)@)),
    {
        let ghost c = self.decls();
        let ghost h = opt_view(*home);
        let ghost p0 = views(path@);
        let ghost s0 = st.state();
        let ghost all = views(list@);
        let mut i: usize = 0;
        assert(all.skip(0) =~= all);
        while i < list.len()
            invariant
                i <= list@.len(),
                c == self.decls(),
                h == opt_view(*home),
                all == views(list@),
                views(path@) == p0,
                p0 == views(old(path)@),
                s0 == old(st).state(),
                path@.len() > 0,
                fold(c, h, all, p0, s0) == fold(c, h, all.skip(i as int), p0, st.state()),
            decreases list@.len() - i,
        {
            let name = &list[i];
            let ghost now = all.skip(i as int);
            let ghost before = st.state();
            proof {
                assert(now[0] == name@);
                assert(now.drop_first() =~= all.skip(i + 1));
            }
            if is_among(path, name.as_str()) {
                let mut steps = copy_all(path);
                steps.push(name.clone());
                assert(views(steps@) =~= p0.push(name@));
                return Err(ConfigFault::Cycle(steps));
            }
            let member = match self.declared_members(name.as_str()) {
                Some(m) => m,
                None => {
                    let referrer = path[path.len() - 1].clone();
                    assert(views(path@).last() == referrer@);
                    return Err(
                        ConfigFault::Unknown {
                            referrer,
                            name: name.clone(),
                            known: self.includable_names(),
                        },
                    );
                },
            };
            let ghost d = lookup(c, name@)->0;
            if !is_among(&st.done, name.as_str()) {
                let roots = expand_tilde_all(&member.roots, home);
                let repos = expand_tilde_all(&member.repos, home);
                merge_into(&mut st.roots, &roots);
                merge_into(&mut st.repos, &repos);
                let ghost was = st.done@;
                st.done.push(name.clone());
                proof {
                    assert(views(st.done@) =~= views(was).push(name@));
                    assert(views(st.done@).to_set() =~= views(was).to_set().insert(name@)) by {
                        let a = views(was);
                        let b = a.push(name@);
                        assert forall|x: Seq<char>| b.contains(x) <==> a.contains(x) || x
                            == name@ by {
                            if a.contains(x) {
                                let k = choose|k: int| 0 <= k < a.len() && a[k] == x;
                                assert(b[k] == x);
                            }
                            assert(b[a.len() as int] == name@);
                        }
                    }
                    assert(st.state() == with_members(before, Decl { name: name@, ..d }, h));
                    left_shrinks(c, p0, name@);
                }
                let ghost before_path = path@;
                path.push(name.clone());
                assert(views(path@) =~= p0.push(name@));
                let inner = self.fold_all(home, &member.includes, path, st);
                match inner {
                    Err(e) => {
                        return Err(e);
                    },
                    Ok(()) => {},
                }
                let ghost long = path@;
                path.pop();
                assert(views(path@) =~= views(long).drop_last());
                assert(views(path@) =~= p0);
            }
            i = i + 1;
        }
        assert(all.skip(i as int) =~= Seq::empty());
        Ok(())
    }
}


// ---------------------------------------------------------------------------
// What a fault says
// ---------------------------------------------------------------------------

/// A name between backticks.
pub open spec fn ticked(names: Seq<Seq<char>>) -> Seq<Seq<char>> {
    names.map_values(|n: Seq<char>| "`"@ + n + "`"@)
}

/// How the complaint about a duplicate name ends.
pub const MUST_BE_UNIQUE: &'static str = "` — `[[workspaces]]` names (and the legacy \
`[workspace]`, which folds in as `default`) must each be unique";

/// How the complaint about a cycle ends.
pub const NO_CYCLES: &'static str = " — a `[[workspaces]]` entry cannot include \
itself, directly or through the workspaces it includes";

/// How the complaint about an unknown name ends.
pub const ONLY_NAMED: &'static str = ") — only \
named `[[workspaces]]` (and the legacy `[workspace]`, which folds in as \
`default`) can be included; `[standalone]` repos are unnamed, so there is no \
name to reference";

/// What a fault says.
pub open spec fn message_of(f: FaultView) -> Seq<char> {
    match f {
        FaultView::Duplicate(name) => "duplicate workspace name `"@ + name + MUST_BE_UNIQUE@,
        FaultView::Cycle(path) => "workspace include cycle: "@ + join_of(ticked(path), " → "@)
            + NO_CYCLES@,
        FaultView::Unknown { referrer, name, known } => "`includes` in workspace `"@ + referrer
            + "`: no workspace named `"@ + name + "` (known: "@ + join_of(known, ", "@)
            + ONLY_NAMED@,
    }
}

/// The steps of an include path, each between backticks.
fn cycle_path(path: &Vec<String>) -> (s: String)
    ensures
        s@ == join_of(ticked(views(path@)), " → "@),
{
    let mut steps: Vec<String> = Vec::new();
    let mut i: usize = 0;
    while i < path.len()
        invariant
            i <= path@.len(),
            views(steps@) == ticked(views(path@)).take(i as int),
        decreases path@.len() - i,
    {
        let ghost was = steps@;
        let mut step = "`".to_owned();
        step.append(path[i].as_str());
        step.append("`");
        steps.push(step);
        assert(views(steps@) =~= views(was).push(step@));
        assert(step@ == ticked(views(path@))[i as int]);
        i = i + 1;
        assert(views(steps@) =~= ticked(views(path@)).take(i as int));
    }
    assert(ticked(views(path@)).take(path@.len() as int) =~= ticked(views(path@)));
    join(&steps, " → ")
}

impl ConfigFault {
    /// What the fault says.
    pub fn message(&self) -> (s: String)
        ensures
            s@ == message_of(self@),
    {
        match self {
            ConfigFault::Duplicate(name) => {
                let mut s = "duplicate workspace name `".to_owned();
                s.append(name.as_str());
                s.append(MUST_BE_UNIQUE);
                s
            },
            ConfigFault::Cycle(path) => {
                let mut s = "workspace include cycle: ".to_owned();
                s.append(cycle_path(path).as_str());
                s.append(NO_CYCLES);
                s
            },
            ConfigFault::Unknown { referrer, name, known } => {
                let mut s = "`includes` in workspace `".to_owned();
                s.append(referrer.as_str());
                s.append("`: no workspace named `");
                s.append(name.as_str());
                s.append("` (known: ");
                s.append(join(known, ", ").as_str());
                s.append(ONLY_NAMED);
                s
            },
        }
    }
}

// ---------------------------------------------------------------------------
// The resolved groups
// ---------------------------------------------------------------------------

/// A group of repositories, ready to be opened.
#[derive(Debug)]
pub struct ResolvedWorkspace {
    pub name: String,
    pub roots: Vec<String>,
    pub repos: Vec<String>,
    /// Its repositories may refer to each other.
    pub linked: bool,
}

/// What a resolved group holds.
pub struct GroupView {
    pub name: Seq<char>,
    pub roots: Seq<Seq<char>>,
    pub repos: Seq<Seq<char>>,
    pub linked: bool,
}

impl View for ResolvedWorkspace {
    type V = GroupView;

    open spec fn view(&self) -> GroupView {
        GroupView {
            name: self.name@,
            roots: views(self.roots@),
            repos: views(self.repos@),
            linked: self.linked,
        }
    }
}

/// A declaration's own members, nothing folded in.
pub open spec fn own_members(d: Decl, home: Option<Seq<char>>) -> Folded {
    Folded {
        done: Set::empty(),
        roots: all_expanded(d.roots, home),
        repos: all_expanded(d.repos, home),
    }
}

/// The linked group of a declaration: its own members, then those of everything
/// it includes.
pub open spec fn group_of(c: Seq<Decl>, home: Option<Seq<char>>, d: Decl) -> Result<
    GroupView,
    FaultView,
> {
    match fold(c, home, d.includes, seq![d.name], own_members(d, home)) {
        Ok(f) => Ok(GroupView { name: d.name, roots: f.roots, repos: f.repos, linked: true }),
        Err(e) => Err(e),
    }
}

/// The linked groups of the first `k` declarations, or the first fault among
/// them.
pub open spec fn linked_groups(c: Seq<Decl>, home: Option<Seq<char>>, k: nat) -> Result<
    Seq<GroupView>,
    FaultView,
>
    decreases k,
{
    if k == 0 {
        Ok(Seq::empty())
    } else {
        match linked_groups(c, home, (k - 1) as nat) {
            Err(e) => Err(e),
            Ok(gs) => match group_of(c, home, c[k - 1]) {
                Ok(g) => Ok(gs.push(g)),
                Err(e) => Err(e),
            },
        }
    }
}

/// The first name that an earlier one repeats stands at `i`.
pub open spec fn dup_at(names: Seq<Seq<char>>, i: int) -> bool {
    &&& 0 <= i < names.len()
    &&& names.take(i).contains(names[i])
    &&& forall|j: int| 0 <= j < i ==> !(#[trigger] names.take(j)).contains(names[j])
}

/// A name with a number behind it.
pub open spec fn numbered(base: Seq<char>, n: nat) -> Seq<char> {
    base + "-"@ + decimal_of(n)
}

/// `name` is `base`, or where that is used the first of `base-2`, `base-3`, …
/// that is not.
pub open spec fn deduped(used: Seq<Seq<char>>, base: Seq<char>, name: Seq<char>) -> bool {
    &&& !used.contains(name)
    &&& if !used.contains(base) {
        name == base
    } else {
        exists|n: nat|
            {
                &&& 2 <= n
                &&& name == #[trigger] numbered(base, n)
                &&& forall|m: nat| 2 <= m < n ==> used.contains(#[trigger] numbered(base, m))
            }
    }
}

spec fn numbers_upto(base: Seq<char>, n: nat) -> Set<Seq<char>>
    decreases n,
{
    if n <= 2 {
        Set::empty()
    } else {
        numbers_upto(base, (n - 1) as nat).insert(numbered(base, (n - 1) as nat))
    }
}

proof fn numbered_injective(base: Seq<char>, a: nat, b: nat)
    requires
        numbered(base, a) == numbered(base, b),
    ensures
        a == b,
{
    let k = (base + "-"@).len() as int;
    assert(numbered(base, a).skip(k) =~= decimal_of(a));
    assert(numbered(base, b).skip(k) =~= decimal_of(b));
    decimal_injective(a, b);
}

proof fn numbers_count(base: Seq<char>, n: nat)
    requires
        n >= 2,
    ensures
        numbers_upto(base, n).finite(),
        numbers_upto(base, n).len() == n - 2,
        forall|x: Seq<char>| #[trigger]
            numbers_upto(base, n).contains(x) ==> exists|m: nat|
                2 <= m < n && x == #[trigger] numbered(base, m),
    decreases n,
{
    if n > 2 {
        let p = (n - 1) as nat;
        numbers_count(base, p);
        if numbers_upto(base, p).contains(numbered(base, p)) {
            let m = choose|m: nat| 2 <= m < p && numbered(base, p) == #[trigger] numbered(base, m);
            numbered_injective(base, p, m);
        }
        assert forall|x: Seq<char>| #[trigger] numbers_upto(base, n).contains(x) implies exists|
            m: nat,
        | 2 <= m < n && x == #[trigger] numbered(base, m) by {
            if x != numbered(base, p) {
                let m = choose|m: nat| 2 <= m < p && x == #[trigger] numbered(base, m);
                assert(2 <= m < n && x == numbered(base, m));
            }
        }
    }
}

proof fn numbers_run_out(used: Seq<Seq<char>>, base: Seq<char>, n: nat)
    requires
        n >= 2,
        forall|m: nat| 2 <= m < n ==> used.contains(#[trigger] numbered(base, m)),
    ensures
        n - 2 <= used.len(),
{
    numbers_count(base, n);
    vstd::seq_lib::seq_to_set_is_finite(used);
    assert(numbers_upto(base, n).subset_of(used.to_set()));
    vstd::set_lib::lemma_len_subset(numbers_upto(base, n), used.to_set());
    used.lemma_cardinality_of_set();
}

/// Makes `base` unique against the names already handed out, with `-2`, `-3`, …
/// behind it where it is not, and hands the result out.
pub fn dedupe_workspace_name(used: &mut Vec<String>, base: &str) -> (name: String)
    ensures
        deduped(views(old(used)@), base@, name@),
        views(final(used)@) == views(old(used)@).push(name@),
{
    let ghost was = views(used@);
    if !is_among(used, base) {
        let name = base.to_owned();
        used.push(name.clone());
        assert(views(used@) =~= was.push(name@));
        return name;
    }
    let mut n: u128 = 2;
    loop
        invariant
            used@ == old(used)@,
            was == views(used@),
            was.contains(base@),
            2 <= n,
            n - 2 <= used@.len(),
            forall|m: nat| 2 <= m < n ==> was.contains(#[trigger] numbered(base@, m)),
        decreases used@.len() + 2 - n,
    {
        let mut name = base.to_owned();
        name.append("-");
        name.append(decimal_wide(n).as_str());
        assert(name@ == numbered(base@, n as nat));
        if !is_among(used, name.as_str()) {
            used.push(name.clone());
            assert(views(used@) =~= was.push(name@));
            return name;
        }
        proof {
            assert forall|m: nat| 2 <= m < n + 1 implies was.contains(
                #[trigger] numbered(base@, m),
            ) by {
                if m == n as nat {
                    assert(was.contains(name@));
                }
            }
            numbers_run_out(was, base@, (n + 1) as nat);
        }
        let len: usize = used.len();
        n = n + 1;
    }
}

/// The repositories that were found, root by root.
pub open spec fn all_found(found: Seq<Vec<String>>) -> Seq<Seq<char>>
    decreases found.len(),
{
    if found.len() == 0 {
        Seq::empty()
    } else {
        all_found(found.drop_last()) + views(found.last()@)
    }
}

/// The standalone repositories: those found under the roots, then those named,
/// each once.
pub open spec fn standalone_of(w: WorkspaceConfig, home: Option<Seq<char>>, found: Seq<Vec<String>>) -> Seq<
    Seq<char>,
> {
    first_of_each(all_found(found) + all_expanded(list_of(w.repos), home))
}

/// The name a standalone repository's group asks for: that of its directory.
pub open spec fn solo_base(path: Seq<char>) -> Seq<char> {
    match file_name_of(path) {
        Some(n) => n,
        None => "repo"@,
    }
}

/// The names of `groups`.
pub open spec fn group_names(groups: Seq<ResolvedWorkspace>) -> Seq<Seq<char>> {
    groups.map_values(|g: ResolvedWorkspace| g.name@)
}

/// `g` is the unlinked group of the one repository `path`, under a name that
/// none of `used` has.
pub open spec fn solo_is(g: ResolvedWorkspace, path: Seq<char>, used: Seq<Seq<char>>) -> bool {
    &&& !g.linked
    &&& g.roots@.len() == 0
    &&& views(g.repos@) == seq![path]
    &&& deduped(used, solo_base(path), g.name@)
}

/// `out` is the linked groups `gs`, then one group per repository of `solos`.
pub open spec fn groups_are(
    out: Seq<ResolvedWorkspace>,
    gs: Seq<GroupView>,
    solos: Seq<Seq<char>>,
) -> bool {
    &&& out.len() == gs.len() + solos.len()
    &&& forall|i: int| 0 <= i < gs.len() ==> (#[trigger] out[i])@ == gs[i]
    &&& forall|i: int|
        gs.len() <= i < out.len() ==> solo_is(
            #[trigger] out[i],
            solos[i - gs.len()],
            group_names(out.take(i)),
        )
}

/// What resolving the workspace tables gives.
pub open spec fn resolved(
    c: Seq<Decl>,
    home: Option<Seq<char>>,
    solos: Seq<Seq<char>>,
    r: Result<Vec<ResolvedWorkspace>, ConfigFault>,
) -> bool {
    if exists|i: int| dup_at(decl_names(c), i) {
        r matches Err(e) && exists|i: int|
            #[trigger] dup_at(decl_names(c), i) && e@ == FaultView::Duplicate(decl_names(c)[i])
    } else {
        match linked_groups(c, home, c.len()) {
            Err(e) => r matches Err(x) && x@ == e,
            Ok(gs) => r matches Ok(out) && groups_are(out@, gs, solos),
        }
    }
}

proof fn no_dup_so_far(names: Seq<Seq<char>>)
    requires
        forall|j: int| 0 <= j < names.len() ==> !(#[trigger] names.take(j)).contains(names[j]),
    ensures
        !exists|i: int| dup_at(names, i),
{
    assert forall|i: int| !dup_at(names, i) by {
        if dup_at(names, i) {
            assert(!names.take(i).contains(names[i]));
        }
    }
}

impl Config {
    /// The roots under which standalone repositories are to be looked for.
    pub fn standalone_roots(&self, home: &Option<String>) -> (r: Vec<String>)
        ensures
            views(r@) == all_expanded(list_of(self.standalone.roots), opt_view(*home)),
    {
        let roots = list_or_empty(&self.standalone.roots);
        expand_tilde_all(&roots, home)
    }

    /// The standalone repositories, where `found` holds those found under each
    /// root.
    pub fn standalone_repo_paths(&self, home: &Option<String>, found: &Vec<Vec<String>>) -> (r: Vec<
        String,
    >)
        ensures
            views(r@) == standalone_of(self.standalone, opt_view(*home), found@),
    {
        let mut all: Vec<String> = Vec::new();
        let mut i: usize = 0;
        assert(views(all@) =~= Seq::empty());
        while i < found.len()
            invariant
                i <= found@.len(),
                views(all@) == all_found(found@.take(i as int)),
            decreases found@.len() - i,
        {
            assert(found@.take(i + 1).drop_last() =~= found@.take(i as int));
            let ghost base = views(all@);
            let mut j: usize = 0;
            assert(base + views(found@[i as int]@).take(0) =~= base);
            while j < found[i].len()
                invariant
                    i < found@.len(),
                    j <= found@[i as int]@.len(),
                    views(all@) == base + views(found@[i as int]@).take(j as int),
                decreases found@[i as int]@.len() - j,
            {
                let ghost was = all@;
                all.push(found[i][j].clone());
                proof {
                    let v = views(found@[i as int]@);
                    assert(views(all@) =~= views(was).push(v[j as int]));
                    assert(base + v.take(j + 1) =~= (base + v.take(j as int)).push(v[j as int]));
                }
                j = j + 1;
            }
            assert(views(found@[i as int]@).take(j as int) =~= views(found@[i as int]@));
            i = i + 1;
        }
        assert(found@.take(found@.len() as int) =~= found@);
        let named = list_or_empty(&self.standalone.repos);
        let repos = expand_tilde_all(&named, home);
        let ghost head = views(all@);
        let mut k: usize = 0;
        assert(head + views(repos@).take(0) =~= head);
        while k < repos.len()
            invariant
                k <= repos@.len(),
                views(all@) == head + views(repos@).take(k as int),
            decreases repos@.len() - k,
        {
            let ghost was = all@;
            all.push(repos[k].clone());
            proof {
                let v = views(repos@);
                assert(views(all@) =~= views(was).push(v[k as int]));
                assert(head + v.take(k + 1) =~= (head + v.take(k as int)).push(v[k as int]));
            }
            k = k + 1;
        }
        assert(views(repos@).take(repos@.len() as int) =~= views(repos@));
        let mut r: Vec<String> = Vec::new();
        let mut m: usize = 0;
        assert(views(r@) =~= Seq::empty());
        while m < all.len()
            invariant
                m <= all@.len(),
                views(r@) == first_of_each(views(all@).take(m as int)),
            decreases all@.len() - m,
        {
            let ghost was = r@;
            assert(views(all@).take(m + 1).drop_last() =~= views(all@).take(m as int));
            if !is_listed(&r, all[m].as_str()) {
                r.push(all[m].clone());
                assert(views(r@) =~= views(was).push(views(all@)[m as int]));
            }
            m = m + 1;
        }
        assert(views(all@).take(all@.len() as int) =~= views(all@));
        r
    }

    /// The linked group of one declared workspace.
    fn linked_group(
        &self,
        home: &Option<String>,
        name: &String,
        roots: &Option<Vec<String>>,
        repos: &Option<Vec<String>>,
        includes: &Option<Vec<String>>,
    ) -> (r: Result<ResolvedWorkspace, ConfigFault>)
        ensures
            match group_of(
                self.decls(),
                opt_view(*home),
                Decl {
                    name: name@,
                    roots: list_of(*roots),
                    repos: list_of(*repos),
                    includes: list_of(*includes),
                },
            ) {
                Ok(g) => r matches Ok(x) && x@ == g,
                Err(e) => r matches Err(x) && x@ == e,
            },
    {
        let own_roots = list_or_empty(roots);
        let own_repos = list_or_empty(repos);
        let list = list_or_empty(includes);
        let done: Vec<String> = Vec::new();
        let mut st = IncludeFold {
            done,
            roots: expand_tilde_all(&own_roots, home),
            repos: expand_tilde_all(&own_repos, home),
        };
        let mut path: Vec<String> = Vec::new();
        path.push(name.clone());
        proof {
            assert(views(path@) =~= seq![name@]);
            assert(views(st.done@).to_set() =~= Set::empty());
        }
        match self.fold_all(home, &list, &mut path, &mut st) {
            Ok(()) => Ok(
                ResolvedWorkspace {
                    name: name.clone(),
                    roots: st.roots,
                    repos: st.repos,
                    linked: true,
                },
            ),
            Err(e) => Err(e),
        }
    }

    /// Resolves the workspace tables into a flat list of groups: the `[workspace]`
    /// table as `default`, each `[[workspaces]]` entry with the members of
    /// everything it includes folded in, and one unlinked group per standalone
    /// repository. `home` is the home directory, `found` what was found under each
    /// standalone root.
    pub fn resolved_workspaces(&self, home: &Option<String>, found: &Vec<Vec<String>>) -> (r: Result<
        Vec<ResolvedWorkspace>,
        ConfigFault,
    >)
        ensures
            resolved(
                self.decls(),
                opt_view(*home),
                standalone_of(self.standalone, opt_view(*home), found@),
                r,
            ),
    {
        let ghost c = self.decls();
        let ghost names = decl_names(c);
        let mut used = self.includable_names();
        let n: usize = used.len();
        let mut i: usize = 0;
        while i < n
            invariant
                i <= n,
                n == used@.len(),
                names == views(used@),
                names == decl_names(c),
                c == self.decls(),
                forall|j: int| 0 <= j < i ==> !(#[trigger] names.take(j)).contains(names[j]),
            decreases n - i,
        {
            let mut k: usize = 0;
            while k < i
                invariant
                    k <= i,
                    i < n,
                    n == used@.len(),
                    names == views(used@),
                    names == decl_names(c),
                    c == self.decls(),
                    forall|j: int| 0 <= j < i ==> !(#[trigger] names.take(j)).contains(names[j]),
                    forall|j: int| 0 <= j < k ==> #[trigger] names[j] != names[i as int],
                decreases i - k,
            {
                if same(used[k].as_str(), used[i].as_str()) {
                    assert(names.take(i as int)[k as int] == names[i as int]);
                    assert(dup_at(names, i as int));
                    return Err(ConfigFault::Duplicate(used[i].clone()));
                }
                assert(names[k as int] != names[i as int]);
                k = k + 1;
            }
            assert(!names.take(i as int).contains(names[i as int]));
            i = i + 1;
        }
        proof {
            no_dup_so_far(names);
        }
        let mut out: Vec<ResolvedWorkspace> = Vec::new();
        let ghost h = opt_view(*home);
        let ghost mut gs: Seq<GroupView> = Seq::empty();
        let ghost legacy = legacy_of(self.workspace);
        if !self.workspace.is_empty() {
            let name = "default".to_owned();
            let none: Option<Vec<String>> = None;
            assert(c[0] == legacy[0]);
            match self.linked_group(home, &name, &self.workspace.roots, &self.workspace.repos, &none) {
                Ok(g) => {
                    proof {
                        assert(linked_groups(c, h, 0) == Ok::<Seq<GroupView>, FaultView>(gs));
                        gs = gs.push(g@);
                    }
                    out.push(g);
                },
                Err(e) => {
                    proof {
                        assert(linked_groups(c, h, 0) == Ok::<Seq<GroupView>, FaultView>(gs));
                        assert(linked_groups(c, h, 1) == Err::<Seq<GroupView>, FaultView>(e@));
                        first_fault(c, h, 1, c.len());
                    }
                    return Err(e);
                },
            }
        }
        assert(linked_groups(c, h, legacy.len()) == Ok::<Seq<GroupView>, FaultView>(gs));
        let mut w: usize = 0;
        while w < self.workspaces.len()
            invariant
                w <= self.workspaces@.len(),
                c == self.decls(),
                names == decl_names(c),
                names == views(used@),
                h == opt_view(*home),
                legacy == legacy_of(self.workspace),
                !exists|i: int| dup_at(names, i),
                linked_groups(c, h, (legacy.len() + w) as nat) == Ok::<Seq<GroupView>, FaultView>(gs),
                out@.len() == legacy.len() + w,
                gs.len() == out@.len(),
                forall|i: int| 0 <= i < gs.len() ==> (#[trigger] out@[i])@ == gs[i],
            decreases self.workspaces@.len() - w,
        {
            let nw = &self.workspaces[w];
            assert(c[legacy.len() + w] == entry_of(*nw));
            match self.linked_group(home, &nw.name, &nw.roots, &nw.repos, &nw.includes) {
                Ok(g) => {
                    proof {
                        gs = gs.push(g@);
                    }
                    out.push(g);
                },
                Err(e) => {
                    proof {
                        let k = (legacy.len() + w + 1) as nat;
                        assert(linked_groups(c, h, k) == Err::<Seq<GroupView>, FaultView>(e@));
                        first_fault(c, h, k, c.len());
                    }
                    return Err(e);
                },
            }
            w = w + 1;
        }
        proof {
            groups_named(c, h, c.len());
            assert(group_names(out@) =~= names);
        }
        let solos = self.standalone_repo_paths(home, found);
        let ghost paths = views(solos@);
        let mut s: usize = 0;
        while s < solos.len()
            invariant
                s <= solos@.len(),
                paths == views(solos@),
                out@.len() == gs.len() + s,
                views(used@) == group_names(out@),
                forall|i: int| 0 <= i < gs.len() ==> (#[trigger] out@[i])@ == gs[i],
                forall|i: int|
                    gs.len() <= i < out@.len() ==> solo_is(
                        #[trigger] out@[i],
                        paths[i - gs.len()],
                        group_names(out@.take(i)),
                    ),
            decreases solos@.len() - s,
        {
            let base = match file_name(solos[s].as_str()) {
                Some(b) => b,
                None => "repo".to_owned(),
            };
            assert(base@ == solo_base(paths[s as int]));
            let name = dedupe_workspace_name(&mut used, base.as_str());
            let mut repos: Vec<String> = Vec::new();
            repos.push(solos[s].clone());
            assert(views(repos@) =~= seq![paths[s as int]]);
            let ghost was = out@;
            let g = ResolvedWorkspace { name, roots: Vec::new(), repos, linked: false };
            out.push(g);
            proof {
                assert(group_names(out@) =~= group_names(was).push(g.name@));
                assert(out@.take(was.len() as int) =~= was);
                assert forall|i: int| gs.len() <= i < out@.len() implies solo_is(
                    #[trigger] out@[i],
                    paths[i - gs.len()],
                    group_names(out@.take(i)),
                ) by {
                    if i < was.len() {
                        assert(out@[i] == was[i]);
                        assert(out@.take(i) =~= was.take(i));
                    }
                }
            }
            s = s + 1;
        }
        Ok(out)
    }
}

proof fn first_fault(c: Seq<Decl>, h: Option<Seq<char>>, k: nat, n: nat)
    requires
        k <= n,
        linked_groups(c, h, k) is Err,
    ensures
        linked_groups(c, h, n) == linked_groups(c, h, k),
    decreases n,
{
    if k < n {
        first_fault(c, h, k, (n - 1) as nat);
    }
}

proof fn groups_named(c: Seq<Decl>, h: Option<Seq<char>>, n: nat)
    requires
        n <= c.len(),
        linked_groups(c, h, n) is Ok,
    ensures
        linked_groups(c, h, n)->Ok_0.len() == n,
        forall|i: int|
            0 <= i < n ==> (#[trigger] linked_groups(c, h, n)->Ok_0[i]).name == c[i].name,
        forall|i: int|
            0 <= i < n ==> Ok::<GroupView, FaultView>(#[trigger] linked_groups(c, h, n)->Ok_0[i])
                == group_of(c, h, c[i]),
    decreases n,
{
    if n > 0 {
        groups_named(c, h, (n - 1) as nat);
    }
}

} // verus!
