//! What the graph knows about a change: each touched symbol with its
//! neighbourhood, the authored layer's violations that the change touches, the
//! markers it carries, and the nodes that depend on it.
use vstd::prelude::*;

use crate::diff::{git_said, unified, unified_untracked, untracked_said, GitRun};
use crate::graph::{Node, NodeClass, Score};
use crate::names::NameMap;
use crate::seqs::{picked, picked_facts, picked_step};
use crate::text::{
    before_first, chars_of, copy_opt, find_from, head, is_among, occurs_at, opt_view, same, views,
};

pub mod laws;
pub mod score;

verus! {

/// The tag of the report's format.
pub const REVIEW_SCHEMA: &'static str = "roteiro.review/v1";

// ---------------------------------------------------------------------------
// What is reviewed
// ---------------------------------------------------------------------------

/// How a file changed.
#[derive(Debug, Clone, Copy, PartialEq, Eq, Structural)]
pub enum ChangeStatus {
    Added,
    Modified,
    Deleted,
}

impl ChangeStatus {
    /// The token of a status.
    pub open spec fn token(self) -> Seq<char> {
        match self {
            ChangeStatus::Added => "added"@,
            ChangeStatus::Modified => "modified"@,
            ChangeStatus::Deleted => "deleted"@,
        }
    }

    /// The token of a status.
    pub fn as_str(self) -> (r: &'static str)
        ensures
            r@ == self.token(),
    {
        match self {
            ChangeStatus::Added => "added",
            ChangeStatus::Modified => "modified",
            ChangeStatus::Deleted => "deleted",
        }
    }
}

/// A changed file, with the nodes that the graph has in it.
#[derive(Debug)]
pub struct ChangedFile {
    pub path: String,
    pub status: ChangeStatus,
    pub nodes: Vec<Node>,
    /// Its diff, where one was asked for and git gave one.
    pub diff: Option<String>,
}

/// An edge as a node's context lists it.
#[derive(Debug)]
pub struct ContextEdge {
    /// The node at the other end.
    pub node: String,
    pub kind: String,
    pub provenance: String,
    pub confidence: Option<Score>,
}

/// A node's edges.
#[derive(Debug)]
pub struct NodeContext {
    pub incoming: Vec<ContextEdge>,
    pub outgoing: Vec<ContextEdge>,
}

/// The part of the graph that a review looks things up in.
#[derive(Debug)]
pub struct Snapshot {
    pub nodes: NameMap<Node>,
    pub contexts: NameMap<NodeContext>,
}

/// A violation of the authored layer.
#[derive(Debug)]
pub struct Violation {
    /// The label of its kind.
    pub kind: String,
    pub message: String,
}

// ---------------------------------------------------------------------------
// Which diff a file gets
// ---------------------------------------------------------------------------

/// Where diffs are taken from: the base of a range, or nothing for a review of
/// the working tree.
#[derive(Debug)]
pub struct DiffSource {
    pub base: Option<String>,
}

/// The range that git compares over.
pub open spec fn range_of(base: Option<Seq<char>>) -> Seq<Seq<char>> {
    match base {
        Some(b) => seq![b, "HEAD"@],
        None => seq!["HEAD"@],
    }
}

/// Whether a file has to be compared with nothing. A new file of the working
/// tree may not be tracked, and git shows no text for one that is not.
pub open spec fn retried(base: Option<Seq<char>>, status: ChangeStatus, text: Option<Seq<char>>) -> bool {
    status == ChangeStatus::Added && base is None && (match text {
        Some(t) => t.len() == 0,
        None => true,
    })
}

impl DiffSource {
    /// The range that git compares over.
    pub fn range(&self) -> (r: Vec<String>)
        ensures
            views(r@) == range_of(opt_view(self.base)),
    {
        let mut r: Vec<String> = Vec::new();
        if let Some(b) = &self.base {
            r.push(b.clone());
        }
        r.push("HEAD".to_owned());
        assert(views(r@) =~= range_of(opt_view(self.base)));
        r
    }

    /// Whether a file with this status has to be compared with nothing, given
    /// what git answered over the range.
    pub fn needs_untracked(&self, status: ChangeStatus, ranged: &Option<GitRun>) -> (r: bool)
        ensures
            r == retried(opt_view(self.base), status, git_said(*ranged)),
    {
        let added = match status {
            ChangeStatus::Added => true,
            _ => false,
        };
        let based = match &self.base {
            Some(_) => true,
            None => false,
        };
        let silent = match unified(ranged) {
            Some(t) => t.as_str().unicode_len() == 0,
            None => true,
        };
        added && !based && silent
    }

    /// A file's diff: what git answered over the range, or, where that shows
    /// nothing of a new file, its comparison with nothing.
    pub fn for_file(&self, status: ChangeStatus, ranged: &Option<GitRun>, untracked: &Option<GitRun>) -> (r:
        Option<String>)
        ensures
            opt_view(r) == (if retried(opt_view(self.base), status, git_said(*ranged)) {
                untracked_said(*untracked)
            } else {
                git_said(*ranged)
            }),
    {
        if self.needs_untracked(status, ranged) {
            unified_untracked(untracked)
        } else {
            unified(ranged)
        }
    }
}

// ---------------------------------------------------------------------------
// The report
// ---------------------------------------------------------------------------

/// A similar node.
#[derive(Debug)]
pub struct Related {
    pub node: String,
    pub confidence: Option<Score>,
}

/// A changed symbol and its neighbourhood.
#[derive(Debug)]
pub struct SymbolReview {
    pub key: String,
    pub name: String,
    pub kind: String,
    pub callers: Vec<String>,
    pub callees: Vec<String>,
    /// The authored nodes that link to it.
    pub governed_by: Vec<String>,
    pub related: Vec<Related>,
}

/// What is reviewed of one file.
#[derive(Debug)]
pub struct FileReview {
    pub path: String,
    pub status: &'static str,
    pub symbols: Vec<SymbolReview>,
    /// The names of its intent-debt markers.
    pub debt: Vec<String>,
    pub diff: Option<String>,
}

/// A violation that the change touches.
#[derive(Debug)]
pub struct DriftItem {
    pub kind: String,
    pub message: String,
}

/// A node outside the change that depends on it.
#[derive(Debug)]
pub struct Impacted {
    pub key: String,
    pub name: String,
    pub kind: String,
}

/// A review.
#[derive(Debug)]
pub struct ReviewReport {
    pub schema: &'static str,
    /// What the change was compared with, where a base was given.
    pub base: Option<String>,
    pub changed_files: usize,
    pub files: Vec<FileReview>,
    pub drift: Vec<DriftItem>,
    pub impacted: Vec<Impacted>,
}

impl ReviewReport {
    /// Whether the change touches a violation.
    pub fn has_drift(&self) -> (r: bool)
        ensures
            r == (self.drift@.len() > 0),
    {
        self.drift.len() > 0
    }
}

// ---------------------------------------------------------------------------
// One symbol
// ---------------------------------------------------------------------------

/// The other end of a call.
pub open spec fn calling() -> spec_fn(ContextEdge) -> Option<Seq<char>> {
    |e: ContextEdge|
        if e.kind@ == "calls"@ {
            Some(e.node@)
        } else {
            None
        }
}

/// The other end of an authored edge.
pub open spec fn governing() -> spec_fn(ContextEdge) -> Option<Seq<char>> {
    |e: ContextEdge|
        if e.provenance@ == "authored"@ {
            Some(e.node@)
        } else {
            None
        }
}

/// The other end of a similarity, with its confidence. Other inferred edges are
/// none.
pub open spec fn relating() -> spec_fn(ContextEdge) -> Option<(Seq<char>, Option<Score>)> {
    |e: ContextEdge|
        if e.kind@ == "related"@ {
            Some((e.node@, e.confidence))
        } else {
            None
        }
}

/// The similar nodes as pairs.
pub open spec fn pairs_of(related: Seq<Related>) -> Seq<(Seq<char>, Option<Score>)> {
    related.map_values(|r: Related| (r.node@, r.confidence))
}

/// The edges into a node; none where it has no context.
pub open spec fn into(ctx: Option<NodeContext>) -> Seq<ContextEdge> {
    match ctx {
        Some(c) => c.incoming@,
        None => Seq::empty(),
    }
}

/// The edges out of a node; none where it has no context.
pub open spec fn out_of(ctx: Option<NodeContext>) -> Seq<ContextEdge> {
    match ctx {
        Some(c) => c.outgoing@,
        None => Seq::empty(),
    }
}

/// `r` is the review of `node` with the context `ctx`.
pub open spec fn symbol_is(r: SymbolReview, node: Node, ctx: Option<NodeContext>) -> bool {
    &&& r.key@ == node.key@
    &&& r.name@ == node.name@
    &&& r.kind@ == node.kind@
    &&& views(r.callers@) == picked(into(ctx), calling())
    &&& views(r.callees@) == picked(out_of(ctx), calling())
    &&& views(r.governed_by@) == picked(into(ctx), governing())
    &&& pairs_of(r.related@) == picked(into(ctx), relating()) + picked(out_of(ctx), relating())
}

fn copy_score(s: &Option<Score>) -> (r: Option<Score>)
    ensures
        r == *s,
{
    match s {
        Some(x) => Some(x.clone()),
        None => None,
    }
}

fn callers_of(edges: &Vec<ContextEdge>) -> (r: Vec<String>)
    ensures
        views(r@) == picked(edges@, calling()),
{
    let mut r: Vec<String> = Vec::new();
    let mut i: usize = 0;
    assert(views(r@) =~= picked(edges@.take(0), calling()));
    while i < edges.len()
        invariant
            i <= edges@.len(),
            views(r@) == picked(edges@.take(i as int), calling()),
        decreases edges@.len() - i,
    {
        proof {
            picked_step(edges@, calling(), i as int);
        }
        let ghost was = r@;
        let e = &edges[i];
        if same(e.kind.as_str(), "calls") {
            r.push(e.node.clone());
            assert(views(r@) =~= views(was).push(e.node@));
        }
        i = i + 1;
    }
    assert(edges@.take(edges@.len() as int) =~= edges@);
    r
}

fn governors_of(edges: &Vec<ContextEdge>) -> (r: Vec<String>)
    ensures
        views(r@) == picked(edges@, governing()),
{
    let mut r: Vec<String> = Vec::new();
    let mut i: usize = 0;
    assert(views(r@) =~= picked(edges@.take(0), governing()));
    while i < edges.len()
        invariant
            i <= edges@.len(),
            views(r@) == picked(edges@.take(i as int), governing()),
        decreases edges@.len() - i,
    {
        proof {
            picked_step(edges@, governing(), i as int);
        }
        let ghost was = r@;
        let e = &edges[i];
        if same(e.provenance.as_str(), "authored") {
            r.push(e.node.clone());
            assert(views(r@) =~= views(was).push(e.node@));
        }
        i = i + 1;
    }
    assert(edges@.take(edges@.len() as int) =~= edges@);
    r
}

fn relate(edges: &Vec<ContextEdge>, r: &mut Vec<Related>)
    ensures
        pairs_of(final(r)@) == pairs_of(old(r)@) + picked(edges@, relating()),
{
    let ghost base = pairs_of(r@);
    let mut i: usize = 0;
    assert(pairs_of(r@) =~= base + picked(edges@.take(0), relating()));
    while i < edges.len()
        invariant
            i <= edges@.len(),
            pairs_of(r@) == base + picked(edges@.take(i as int), relating()),
        decreases edges@.len() - i,
    {
        proof {
            picked_step(edges@, relating(), i as int);
        }
        let ghost was = r@;
        let ghost before = picked(edges@.take(i as int), relating());
        let e = &edges[i];
        if same(e.kind.as_str(), "related") {
            r.push(Related { node: e.node.clone(), confidence: copy_score(&e.confidence) });
            proof {
                let x = (e.node@, e.confidence);
                assert(pairs_of(r@) =~= pairs_of(was).push(x));
                assert(base + before.push(x) =~= (base + before).push(x));
            }
        }
        i = i + 1;
    }
    assert(edges@.take(edges@.len() as int) =~= edges@);
}

/// The review of a changed node.
pub fn symbol_review(node: &Node, ctx: Option<&NodeContext>) -> (r: SymbolReview)
    ensures
        symbol_is(
            r,
            *node,
            (match ctx {
                Some(c) => Some(*c),
                None => None,
            }),
        ),
{
    let mut callers: Vec<String> = Vec::new();
    let mut callees: Vec<String> = Vec::new();
    let mut governed_by: Vec<String> = Vec::new();
    let mut related: Vec<Related> = Vec::new();
    assert(pairs_of(related@) =~= Seq::empty());
    if let Some(c) = ctx {
        callers = callers_of(&c.incoming);
        governed_by = governors_of(&c.incoming);
        relate(&c.incoming, &mut related);
        callees = callers_of(&c.outgoing);
        relate(&c.outgoing, &mut related);
        assert(pairs_of(related@) =~= picked(c.incoming@, relating()) + picked(
            c.outgoing@,
            relating(),
        ));
    } else {
        assert(views(callers@) =~= Seq::empty());
        assert(views(callees@) =~= Seq::empty());
        assert(views(governed_by@) =~= Seq::empty());
    }
    SymbolReview {
        key: node.key.clone(),
        name: node.name.clone(),
        kind: node.kind.clone(),
        callers,
        callees,
        governed_by,
        related,
    }
}

// ---------------------------------------------------------------------------
// One file
// ---------------------------------------------------------------------------

/// A node that is reviewed: neither the file itself nor a marker.
pub open spec fn symbol() -> spec_fn(Node) -> Option<Node> {
    |n: Node|
        if n.class == NodeClass::Other {
            Some(n)
        } else {
            None
        }
}

/// The key of a node that is reviewed.
pub open spec fn symbol_key() -> spec_fn(Node) -> Option<Seq<char>> {
    |n: Node|
        if n.class == NodeClass::Other {
            Some(n.key@)
        } else {
            None
        }
}

/// The name of a marker that counts.
pub open spec fn owed(retained: Seq<Seq<char>>) -> spec_fn(Node) -> Option<Seq<char>> {
    |n: Node|
        if n.class == NodeClass::Marker && retained.contains(n.key@) {
            Some(n.name@)
        } else {
            None
        }
}

/// The context of the node `key`.
pub open spec fn context_of(store: Snapshot, key: Seq<char>) -> Option<NodeContext> {
    if store.contexts@.contains_key(key) {
        Some(store.contexts@[key])
    } else {
        None
    }
}

/// The nodes of a file that are looked at: none of a deleted one.
pub open spec fn looked_at(f: ChangedFile) -> Seq<Node> {
    if f.status == ChangeStatus::Deleted {
        Seq::empty()
    } else {
        f.nodes@
    }
}

/// `r` is the review of the file `f`. A marker counts where it is among
/// `retained`.
pub open spec fn file_is(r: FileReview, f: ChangedFile, store: Snapshot, retained: Seq<Seq<char>>) -> bool {
    let symbols = picked(looked_at(f), symbol());
    &&& r.path@ == f.path@
    &&& r.status@ == f.status.token()
    &&& opt_view(r.diff) == opt_view(f.diff)
    &&& views(r.debt@) == picked(looked_at(f), owed(retained))
    &&& r.symbols@.len() == symbols.len()
    &&& forall|i: int|
        #![trigger r.symbols@[i]]
        0 <= i < symbols.len() ==> symbol_is(
            r.symbols@[i],
            symbols[i],
            context_of(store, symbols[i].key@),
        )
}

/// The review of a changed file.
pub fn file_review(f: &ChangedFile, store: &Snapshot, retained: &Vec<String>) -> (r: FileReview)
    ensures
        file_is(r, *f, *store, views(retained@)),
{
    let mut symbols: Vec<SymbolReview> = Vec::new();
    let mut debt: Vec<String> = Vec::new();
    let deleted = match f.status {
        ChangeStatus::Deleted => true,
        _ => false,
    };
    if deleted {
        assert(views(debt@) =~= Seq::empty());
    } else {
        let ghost kept = owed(views(retained@));
        let mut i: usize = 0;
        assert(views(debt@) =~= picked(f.nodes@.take(0), kept));
        assert(picked(f.nodes@.take(0), symbol()).len() == 0);
        while i < f.nodes.len()
            invariant
                i <= f.nodes@.len(),
                kept == owed(views(retained@)),
                views(debt@) == picked(f.nodes@.take(i as int), kept),
                symbols@.len() == picked(f.nodes@.take(i as int), symbol()).len(),
                forall|j: int|
                    #![trigger symbols@[j]]
                    0 <= j < symbols@.len() ==> symbol_is(
                        symbols@[j],
                        picked(f.nodes@.take(i as int), symbol())[j],
                        context_of(*store, picked(f.nodes@.take(i as int), symbol())[j].key@),
                    ),
            decreases f.nodes@.len() - i,
        {
            proof {
                picked_step(f.nodes@, kept, i as int);
                picked_step(f.nodes@, symbol(), i as int);
            }
            let node = &f.nodes[i];
            match node.class {
                NodeClass::File => {},
                NodeClass::Marker => {
                    if is_among(retained, node.key.as_str()) {
                        let ghost was = debt@;
                        debt.push(node.name.clone());
                        assert(views(debt@) =~= views(was).push(node.name@));
                    }
                },
                NodeClass::Other => {
                    let ghost was = symbols@;
                    let ghost found = picked(f.nodes@.take(i as int), symbol());
                    let one = symbol_review(node, store.contexts.get(node.key.as_str()));
                    symbols.push(one);
                    proof {
                        let now = picked(f.nodes@.take(i + 1), symbol());
                        assert(now == found.push(*node));
                        assert forall|j: int| #![trigger symbols@[j]] 0 <= j < symbols@.len() implies symbol_is(
                            symbols@[j],
                            now[j],
                            context_of(*store, now[j].key@),
                        ) by {
                            if j < was.len() {
                                assert(symbols@[j] == was[j]);
                                assert(now[j] == found[j]);
                            }
                        }
                    }
                },
            }
            i = i + 1;
        }
        assert(f.nodes@.take(f.nodes@.len() as int) =~= f.nodes@);
    }
    FileReview {
        path: f.path.clone(),
        status: f.status.as_str(),
        symbols,
        debt,
        diff: copy_opt(&f.diff),
    }
}

// ---------------------------------------------------------------------------
// The whole change
// ---------------------------------------------------------------------------

/// The paths of the changed files.
pub open spec fn paths_of(changed: Seq<ChangedFile>) -> Seq<Seq<char>> {
    changed.map_values(|f: ChangedFile| f.path@)
}

/// The keys of the changed symbols, file by file.
pub open spec fn keys_of(changed: Seq<ChangedFile>) -> Seq<Seq<char>>
    decreases changed.len(),
{
    if changed.len() == 0 {
        Seq::empty()
    } else {
        keys_of(changed.drop_last()) + picked(looked_at(changed.last()), symbol_key())
    }
}

/// The keys of the changed symbols, file by file.
pub fn changed_keys(changed: &Vec<ChangedFile>) -> (r: Vec<String>)
    ensures
        views(r@) == keys_of(changed@),
{
    let mut r: Vec<String> = Vec::new();
    let mut i: usize = 0;
    assert(views(r@) =~= keys_of(changed@.take(0)));
    while i < changed.len()
        invariant
            i <= changed@.len(),
            views(r@) == keys_of(changed@.take(i as int)),
        decreases changed@.len() - i,
    {
        let f = &changed[i];
        assert(changed@.take(i + 1).drop_last() =~= changed@.take(i as int));
        assert(changed@.take(i + 1).last() == *f);
        push_keys(f, &mut r);
        i = i + 1;
    }
    assert(changed@.take(changed@.len() as int) =~= changed@);
    r
}

fn push_keys(f: &ChangedFile, r: &mut Vec<String>)
    ensures
        views(final(r)@) == views(old(r)@) + picked(looked_at(*f), symbol_key()),
{
    let deleted = match f.status {
        ChangeStatus::Deleted => true,
        _ => false,
    };
    let ghost base = views(r@);
    if deleted {
        assert(views(r@) =~= base + picked(looked_at(*f), symbol_key()));
        return;
    }
    let mut i: usize = 0;
    assert(views(r@) =~= base + picked(f.nodes@.take(0), symbol_key()));
    while i < f.nodes.len()
        invariant
            i <= f.nodes@.len(),
            views(r@) == base + picked(f.nodes@.take(i as int), symbol_key()),
        decreases f.nodes@.len() - i,
    {
        proof {
            picked_step(f.nodes@, symbol_key(), i as int);
        }
        let ghost was = r@;
        let ghost before = picked(f.nodes@.take(i as int), symbol_key());
        let other = match f.nodes[i].class {
            NodeClass::Other => true,
            _ => false,
        };
        if other {
            r.push(f.nodes[i].key.clone());
            proof {
                let x = f.nodes@[i as int].key@;
                assert(views(r@) =~= views(was).push(x));
                assert(base + before.push(x) =~= (base + before).push(x));
            }
        }
        i = i + 1;
    }
    assert(f.nodes@.take(f.nodes@.len() as int) =~= f.nodes@);
}

/// The node is defined in one of these files.
pub open spec fn defined_in(n: Node, paths: Seq<Seq<char>>) -> bool {
    match n.path {
        Some(p) => paths.contains(p@),
        None => false,
    }
}

/// The character, beyond ASCII, is punctuation, an arrow, a symbol or a blank.
pub open spec fn is_mark(c: char) -> bool {
    ||| '\u{80}' <= c <= '\u{bf}' && c != '\u{aa}' && c != '\u{b5}' && c != '\u{ba}'
    ||| c == '\u{60c}' || c == '\u{61b}' || c == '\u{61f}' || c == '\u{6d4}'
    ||| '\u{964}' <= c <= '\u{965}'
    ||| '\u{2000}' <= c <= '\u{2bff}'
    ||| '\u{2e00}' <= c <= '\u{2e7f}'
    ||| '\u{3000}' <= c <= '\u{3004}'
    ||| '\u{3008}' <= c <= '\u{3020}'
    ||| c == '\u{3030}'
    ||| '\u{303d}' <= c <= '\u{303f}'
    ||| '\u{fe10}' <= c <= '\u{fe1f}'
    ||| '\u{fe30}' <= c <= '\u{fe6f}'
    ||| '\u{ff01}' <= c <= '\u{ff0f}'
    ||| '\u{ff1a}' <= c <= '\u{ff20}'
    ||| '\u{ff3b}' <= c <= '\u{ff40}'
    ||| '\u{ff5b}' <= c <= '\u{ff65}'
}

/// The character may be part of a path: a letter or a digit, one of the marks
/// that names and separators are made of, or one beyond ASCII that is no
/// punctuation or symbol.
pub open spec fn in_paths(c: char) -> bool {
    ||| 'a' <= c <= 'z'
    ||| 'A' <= c <= 'Z'
    ||| '0' <= c <= '9'
    ||| c == '_' || c == '-' || c == '.' || c == '/' || c == '\\'
    ||| c == '+' || c == '@' || c == '~' || c == '%'
    ||| '\u{80}' <= c && !is_mark(c)
}

/// Where the characters of a path that end at the place `i` begin.
pub open spec fn run_from(s: Seq<char>, i: int) -> int
    decreases i,
{
    if i > 0 && in_paths(s[i - 1]) {
        run_from(s, i - 1)
    } else {
        i
    }
}

/// What begins at the place `r` leads from the root of the file system, or from
/// home.
pub open spec fn leads_anywhere(s: Seq<char>, r: int) -> bool {
    s[r] == '/' || (s[r] == '~' && s[r + 1] == '/')
}

/// A path from the repository's root may begin at the place `i`: no path reaches
/// over it from the left, but for a `./`, which leads nowhere else, or for the
/// directories of an absolute path, which may be those of the repository.
pub open spec fn opens_at(s: Seq<char>, i: int) -> bool
    decreases i,
{
    ||| i <= 0
    ||| !in_paths(s[i - 1])
    ||| i >= 2 && s[i - 1] == '/' && s[i - 2] == '.' && opens_at(s, i - 2)
    ||| s[i - 1] == '/' && leads_anywhere(s, run_from(s, i))
}

/// No path goes on at the place `j`: full stops there end a sentence.
pub open spec fn closes_at(s: Seq<char>, j: int) -> bool
    decreases s.len() - j,
{
    j >= s.len() || !in_paths(s[j]) || (s[j] == '.' && closes_at(s, j + 1))
}

/// The message names the path: it stands there whole, and is no part of a longer
/// one.
pub open spec fn names_path(message: Seq<char>, path: Seq<char>) -> bool {
    exists|i: int| #[trigger]
        occurs_at(message, path, i) && opens_at(message, i) && closes_at(message, i + path.len())
}

fn is_in_paths(c: char) -> (r: bool)
    ensures
        r == in_paths(c),
{
    ('a' <= c && c <= 'z') || ('A' <= c && c <= 'Z') || ('0' <= c && c <= '9') || c == '_' || c
        == '-' || c == '.' || c == '/' || c == '\\' || c == '+' || c == '@' || c == '~' || c == '%'
        || ('\u{80}' <= c && !is_a_mark(c))
}

fn is_a_mark(c: char) -> (r: bool)
    ensures
        r == is_mark(c),
{
    ('\u{80}' <= c && c <= '\u{bf}' && c != '\u{aa}' && c != '\u{b5}' && c != '\u{ba}') || c
        == '\u{60c}' || c == '\u{61b}' || c == '\u{61f}' || c == '\u{6d4}' || ('\u{964}' <= c && c
        <= '\u{965}') || ('\u{2000}' <= c && c <= '\u{2bff}') || ('\u{2e00}' <= c && c
        <= '\u{2e7f}') || ('\u{3000}' <= c && c <= '\u{3004}') || ('\u{3008}' <= c && c
        <= '\u{3020}') || c == '\u{3030}' || ('\u{303d}' <= c && c <= '\u{303f}') || ('\u{fe10}'
        <= c && c <= '\u{fe1f}') || ('\u{fe30}' <= c && c <= '\u{fe6f}') || ('\u{ff01}' <= c && c
        <= '\u{ff0f}') || ('\u{ff1a}' <= c && c <= '\u{ff20}') || ('\u{ff3b}' <= c && c
        <= '\u{ff40}') || ('\u{ff5b}' <= c && c <= '\u{ff65}')
}

fn does_open_at(s: &Vec<char>, i: usize) -> (r: bool)
    requires
        i <= s@.len(),
    ensures
        r == opens_at(s@, i as int),
{
    let mut k: usize = i;
    loop
        invariant
            k <= i <= s@.len(),
            opens_at(s@, k as int) == opens_at(s@, i as int),
        decreases k,
    {
        if k == 0 || !is_in_paths(s[k - 1]) {
            return true;
        }
        if s[k - 1] != '/' {
            return false;
        }
        let start: usize = find_run(s, k);
        if s[start] == '/' || (s[start] == '~' && s[start + 1] == '/') {
            return true;
        }
        if k < 2 || s[k - 2] != '.' {
            return false;
        }
        k = k - 2;
    }
}

fn find_run(s: &Vec<char>, i: usize) -> (r: usize)
    requires
        i <= s@.len(),
    ensures
        r == run_from(s@, i as int),
        r <= i,
        i > 0 && in_paths(s@[i - 1]) ==> r < i,
{
    let mut k: usize = i;
    while k > 0 && is_in_paths(s[k - 1])
        invariant
            k <= i <= s@.len(),
            run_from(s@, k as int) == run_from(s@, i as int),
            i > 0 && in_paths(s@[i - 1]) ==> k < i || in_paths(s@[k - 1]),
        decreases k,
    {
        k = k - 1;
    }
    k
}

fn does_close_at(s: &Vec<char>, j: usize) -> (r: bool)
    requires
        j <= s@.len(),
    ensures
        r == closes_at(s@, j as int),
{
    let mut k: usize = j;
    while k < s.len() && s[k] == '.'
        invariant
            j <= k <= s@.len(),
            closes_at(s@, k as int) == closes_at(s@, j as int),
        decreases s@.len() - k,
    {
        k = k + 1;
    }
    k == s.len() || !is_in_paths(s[k])
}

/// Whether the message names the path.
fn does_name(message: &str, path: &str) -> (r: bool)
    ensures
        r == names_path(message@, path@),
{
    let s = chars_of(message);
    let p = chars_of(path);
    let mut from: usize = 0;
    loop
        invariant
            s@ == message@,
            p@ == path@,
            from <= s@.len(),
            forall|i: int|
                i < from && #[trigger] occurs_at(s@, p@, i) ==> !(opens_at(s@, i) && closes_at(
                    s@,
                    i + p@.len(),
                )),
        decreases s@.len() - from,
    {
        let at: usize = match find_from(&s, &p, from) {
            Some(i) => i,
            None => {
                return false;
            },
        };
        assert(at + p@.len() <= s.len());
        if does_open_at(&s, at) && does_close_at(&s, at + p.len()) {
            assert(occurs_at(s@, p@, at as int));
            return true;
        }
        if at == s.len() {
            return false;
        }
        from = at + 1;
    }
}

/// The message of a violation touches the change: it names a changed path, or
/// what stands before its first colon and space is the key of a node in a
/// changed file.
pub open spec fn touches(message: Seq<char>, nodes: Map<Seq<char>, Node>, paths: Seq<Seq<char>>) -> bool {
    ||| exists|i: int| 0 <= i < paths.len() && names_path(message, #[trigger] paths[i])
    ||| match before_first(message, ": "@) {
        Some(k) => nodes.contains_key(k) && defined_in(nodes[k], paths),
        None => false,
    }
}

fn is_defined_in(n: &Node, paths: &Vec<String>) -> (r: bool)
    ensures
        r == defined_in(*n, views(paths@)),
{
    match &n.path {
        Some(p) => is_among(paths, p.as_str()),
        None => false,
    }
}

/// Whether a violation belongs to the change.
pub fn violation_touches(message: &str, store: &Snapshot, paths: &Vec<String>) -> (r: bool)
    ensures
        r == touches(message@, store.nodes@, views(paths@)),
{
    let mut i: usize = 0;
    while i < paths.len()
        invariant
            i <= paths@.len(),
            forall|j: int| 0 <= j < i ==> !names_path(message@, #[trigger] views(paths@)[j]),
        decreases paths@.len() - i,
    {
        if does_name(message, paths[i].as_str()) {
            assert(names_path(message@, views(paths@)[i as int]));
            return true;
        }
        i = i + 1;
    }
    match head(message, ": ") {
        Some(k) => match store.nodes.get(k.as_str()) {
            Some(n) => is_defined_in(n, paths),
            None => false,
        },
        None => false,
    }
}

/// A violation that touches the change.
pub open spec fn drifting(nodes: Map<Seq<char>, Node>, paths: Seq<Seq<char>>) -> spec_fn(
    Violation,
) -> Option<(Seq<char>, Seq<char>)> {
    |v: Violation|
        if touches(v.message@, nodes, paths) {
            Some((v.kind@, v.message@))
        } else {
            None
        }
}

/// A node outside the change, by its key.
pub open spec fn outside(
    nodes: Map<Seq<char>, Node>,
    keys: Seq<Seq<char>>,
    paths: Seq<Seq<char>>,
) -> spec_fn(Seq<char>) -> Option<(Seq<char>, Seq<char>, Seq<char>)> {
    |k: Seq<char>|
        if keys.contains(k) || !nodes.contains_key(k) || defined_in(nodes[k], paths) {
            None
        } else {
            Some((nodes[k].key@, nodes[k].name@, nodes[k].kind@))
        }
}

/// The drift as pairs.
pub open spec fn drift_view(d: Seq<DriftItem>) -> Seq<(Seq<char>, Seq<char>)> {
    d.map_values(|x: DriftItem| (x.kind@, x.message@))
}

/// The impacted nodes as triples.
pub open spec fn impacted_view(d: Seq<Impacted>) -> Seq<(Seq<char>, Seq<char>, Seq<char>)> {
    d.map_values(|x: Impacted| (x.key@, x.name@, x.kind@))
}

/// `r` is the review of the change.
pub open spec fn report_is(
    r: ReviewReport,
    store: Snapshot,
    changed: Seq<ChangedFile>,
    violations: Seq<Violation>,
    retained: Seq<Seq<char>>,
    dependents: Seq<Seq<char>>,
    base: Option<Seq<char>>,
) -> bool {
    &&& r.schema@ == REVIEW_SCHEMA@
    &&& opt_view(r.base) == base
    &&& r.changed_files == changed.len()
    &&& r.files@.len() == changed.len()
    &&& forall|i: int|
        #![trigger r.files@[i]]
        0 <= i < changed.len() ==> file_is(r.files@[i], changed[i], store, retained)
    &&& drift_view(r.drift@) == picked(violations, drifting(store.nodes@, paths_of(changed)))
    &&& impacted_view(r.impacted@) == picked(
        dependents,
        outside(store.nodes@, keys_of(changed), paths_of(changed)),
    )
}

fn paths(changed: &Vec<ChangedFile>) -> (r: Vec<String>)
    ensures
        views(r@) == paths_of(changed@),
{
    let mut r: Vec<String> = Vec::new();
    let mut i: usize = 0;
    while i < changed.len()
        invariant
            i <= changed@.len(),
            r@.len() == i,
            forall|j: int| 0 <= j < i ==> views(r@)[j] == #[trigger] paths_of(changed@)[j],
        decreases changed@.len() - i,
    {
        let ghost was = r@;
        r.push(changed[i].path.clone());
        assert(views(r@) =~= views(was).push(changed@[i as int].path@));
        i = i + 1;
    }
    assert(views(r@) =~= paths_of(changed@));
    r
}

fn drift(violations: &Vec<Violation>, store: &Snapshot, paths: &Vec<String>) -> (r: Vec<DriftItem>)
    ensures
        drift_view(r@) == picked(violations@, drifting(store.nodes@, views(paths@))),
{
    let ghost f = drifting(store.nodes@, views(paths@));
    let mut r: Vec<DriftItem> = Vec::new();
    let mut i: usize = 0;
    assert(drift_view(r@) =~= picked(violations@.take(0), f));
    while i < violations.len()
        invariant
            i <= violations@.len(),
            f == drifting(store.nodes@, views(paths@)),
            drift_view(r@) == picked(violations@.take(i as int), f),
        decreases violations@.len() - i,
    {
        proof {
            picked_step(violations@, f, i as int);
        }
        let v = &violations[i];
        if violation_touches(v.message.as_str(), store, paths) {
            let ghost was = r@;
            r.push(DriftItem { kind: v.kind.clone(), message: v.message.clone() });
            assert(drift_view(r@) =~= drift_view(was).push((v.kind@, v.message@)));
        }
        i = i + 1;
    }
    assert(violations@.take(violations@.len() as int) =~= violations@);
    r
}

fn impacted(dependents: &Vec<String>, store: &Snapshot, keys: &Vec<String>, paths: &Vec<String>) -> (r:
    Vec<Impacted>)
    ensures
        impacted_view(r@) == picked(
            views(dependents@),
            outside(store.nodes@, views(keys@), views(paths@)),
        ),
{
    let ghost f = outside(store.nodes@, views(keys@), views(paths@));
    let ghost all = views(dependents@);
    let mut r: Vec<Impacted> = Vec::new();
    let mut i: usize = 0;
    assert(impacted_view(r@) =~= picked(all.take(0), f));
    while i < dependents.len()
        invariant
            i <= dependents@.len(),
            all == views(dependents@),
            f == outside(store.nodes@, views(keys@), views(paths@)),
            impacted_view(r@) == picked(all.take(i as int), f),
        decreases dependents@.len() - i,
    {
        proof {
            picked_step(all, f, i as int);
        }
        let k = dependents[i].as_str();
        if !is_among(keys, k) {
            if let Some(n) = store.nodes.get(k) {
                if !is_defined_in(n, paths) {
                    let ghost was = r@;
                    r.push(
                        Impacted {
                            key: n.key.clone(),
                            name: n.name.clone(),
                            kind: n.kind.clone(),
                        },
                    );
                    assert(impacted_view(r@) =~= impacted_view(was).push(
                        (n.key@, n.name@, n.kind@),
                    ));
                }
            }
        }
        i = i + 1;
    }
    assert(all.take(all.len() as int) =~= all);
    r
}

/// The review of a change: `retained` are the markers that count, `dependents`
/// the keys of the nodes one hop from [`changed_keys`].
pub fn build(
    store: &Snapshot,
    changed: &Vec<ChangedFile>,
    violations: &Vec<Violation>,
    retained: &Vec<String>,
    dependents: &Vec<String>,
    base: &Option<String>,
) -> (r: ReviewReport)
    ensures
        report_is(
            r,
            *store,
            changed@,
            violations@,
            views(retained@),
            views(dependents@),
            opt_view(*base),
        ),
{
    let mut files: Vec<FileReview> = Vec::new();
    let mut i: usize = 0;
    while i < changed.len()
        invariant
            i <= changed@.len(),
            files@.len() == i,
            forall|j: int|
                #![trigger files@[j]]
                0 <= j < i ==> file_is(files@[j], changed@[j], *store, views(retained@)),
        decreases changed@.len() - i,
    {
        let ghost was = files@;
        let one = file_review(&changed[i], store, retained);
        files.push(one);
        assert forall|j: int| #![trigger files@[j]] 0 <= j < i + 1 implies file_is(
            files@[j],
            changed@[j],
            *store,
            views(retained@),
        ) by {
            if j < i {
                assert(files@[j] == was[j]);
            }
        }
        i = i + 1;
    }
    let paths = paths(changed);
    let keys = changed_keys(changed);
    ReviewReport {
        schema: REVIEW_SCHEMA,
        base: copy_opt(base),
        changed_files: changed.len(),
        files,
        drift: drift(violations, store, &paths),
        impacted: impacted(dependents, store, &keys, &paths),
    }
}

// ---------------------------------------------------------------------------
// Laws
// ---------------------------------------------------------------------------

/// What a change impacts is outside it: no changed symbol, and nothing that is
/// defined in a changed file.
pub proof fn the_impact_is_outside_the_change(
    nodes: Map<Seq<char>, Node>,
    changed: Seq<ChangedFile>,
    dependents: Seq<Seq<char>>,
    x: (Seq<char>, Seq<char>, Seq<char>),
)
    requires
        forall|k: Seq<char>| nodes.contains_key(k) ==> #[trigger] nodes[k].key@ == k,
        picked(dependents, outside(nodes, keys_of(changed), paths_of(changed))).contains(x),
    ensures
        dependents.contains(x.0),
        !keys_of(changed).contains(x.0),
        nodes.contains_key(x.0),
        !defined_in(nodes[x.0], paths_of(changed)),
{
    let f = outside(nodes, keys_of(changed), paths_of(changed));
    picked_facts(dependents, f);
    let i = choose|i: int| 0 <= i < dependents.len() && f(#[trigger] dependents[i]) == Some(x);
    assert(nodes[dependents[i]].key@ == dependents[i]);
}

/// A review reports a marker only where it counts everywhere else too.
pub proof fn only_retained_markers_are_reported(
    f: ChangedFile,
    retained: Seq<Seq<char>>,
    name: Seq<char>,
)
    requires
        picked(looked_at(f), owed(retained)).contains(name),
    ensures
        exists|i: int|
            0 <= i < f.nodes@.len() && #[trigger] f.nodes@[i].name@ == name && f.nodes@[i].class
                == NodeClass::Marker && retained.contains(f.nodes@[i].key@),
{
    let g = owed(retained);
    picked_facts(looked_at(f), g);
    let i = choose|i: int| 0 <= i < looked_at(f).len() && g(#[trigger] looked_at(f)[i]) == Some(name);
    assert(f.nodes@[i].name@ == name);
}

/// A violation whose message names a changed path belongs to the change,
/// whatever the graph holds.
pub proof fn naming_a_changed_path_is_drift(
    message: Seq<char>,
    nodes: Map<Seq<char>, Node>,
    changed: Seq<ChangedFile>,
    i: int,
)
    requires
        0 <= i < changed.len(),
        names_path(message, changed[i].path@),
    ensures
        touches(message, nodes, paths_of(changed)),
{
    assert(names_path(message, paths_of(changed)[i]));
}

proof fn opening_looks_back(a: Seq<char>, b: Seq<char>, i: int)
    requires
        i <= a.len(),
    ensures
        opens_at(a + b, i) == opens_at(a, i),
    decreases i,
{
    if i >= 2 {
        opening_looks_back(a, b, i - 2);
    }
    if i > 0 {
        runs_look_back(a, b, i);
    }
}

proof fn runs_look_back(a: Seq<char>, b: Seq<char>, i: int)
    requires
        0 <= i <= a.len(),
    ensures
        run_from(a + b, i) == run_from(a, i),
        0 <= run_from(a, i) <= i,
        i > 0 && in_paths(a[i - 1]) ==> run_from(a, i) < i,
    decreases i,
{
    if i > 0 && in_paths(a[i - 1]) {
        runs_look_back(a, b, i - 1);
    }
}

proof fn closing_looks_ahead(a: Seq<char>, b: Seq<char>, j: int)
    requires
        0 <= j,
    ensures
        closes_at(a + b, a.len() + j) == closes_at(b, j),
    decreases b.len() - j,
{
    if j < b.len() {
        closing_looks_ahead(a, b, j + 1);
    }
}

/// A path that stands in a message once is named there exactly where what stands
/// before it opens a path and what stands behind it closes one: as a part of a
/// longer path it is not.
pub proof fn a_part_of_a_path_names_nothing(before: Seq<char>, path: Seq<char>, after: Seq<char>)
    requires
        forall|i: int| #[trigger]
            occurs_at(before + path + after, path, i) ==> i == before.len(),
    ensures
        names_path(before + path + after, path) == (opens_at(before, before.len() as int)
            && closes_at(after, 0)),
        after.len() > 0 && in_paths(after[0]) && after[0] != '.' ==> !names_path(
            before + path + after,
            path,
        ),
        before.len() > 0 && in_paths(before.last()) && before.last() != '/' ==> !names_path(
            before + path + after,
            path,
        ),
        (before.len() == 0 || !in_paths(before.last()) || before == "./"@) && (after.len() == 0
            || !in_paths(after[0])) ==> names_path(before + path + after, path),
{
    reveal_strlit("./");
    reveal_with_fuel(opens_at, 2);
    let s = before + path + after;
    let i = before.len() as int;
    assert(s.subrange(i, i + path.len()) =~= path);
    assert(occurs_at(s, path, i));
    assert(s =~= before + (path + after));
    opening_looks_back(before, path + after, i);
    closing_looks_ahead(before + path, after, 0);
}

/// The symbols reviewed of the files are exactly the changed keys.
pub proof fn every_changed_key_is_reviewed(changed: Seq<ChangedFile>, k: Seq<char>)
    ensures
        keys_of(changed).contains(k) <==> exists|i: int, j: int|
            0 <= i < changed.len() && 0 <= j < looked_at(changed[i]).len() && (#[trigger] looked_at(
                changed[i],
            )[j]).class == NodeClass::Other && looked_at(changed[i])[j].key@ == k,
    decreases changed.len(),
{
    if changed.len() > 0 {
        let rest = changed.drop_last();
        let last = looked_at(changed.last());
        let own = picked(last, symbol_key());
        every_changed_key_is_reviewed(rest, k);
        picked_facts(last, symbol_key());
        let old = keys_of(rest);
        let all = keys_of(changed);
        assert(all == old + own);
        if all.contains(k) {
            let a = choose|a: int| 0 <= a < all.len() && all[a] == k;
            if a < old.len() {
                assert(old[a] == k);
                assert(old.contains(k));
                let (i, j) = choose|i: int, j: int|
                    0 <= i < rest.len() && 0 <= j < looked_at(rest[i]).len() && (
                    #[trigger] looked_at(rest[i])[j]).class == NodeClass::Other && looked_at(
                        rest[i],
                    )[j].key@ == k;
                assert(changed[i] == rest[i]);
                assert(looked_at(changed[i])[j].key@ == k);
            } else {
                assert(own[a - old.len()] == k);
                assert(own.contains(k));
                let j = choose|j: int|
                    0 <= j < last.len() && symbol_key()(#[trigger] last[j]) == Some(k);
                let i = changed.len() - 1;
                assert(looked_at(changed[i])[j].key@ == k);
            }
        }
        if exists|i: int, j: int|
            0 <= i < changed.len() && 0 <= j < looked_at(changed[i]).len() && (#[trigger] looked_at(
                changed[i],
            )[j]).class == NodeClass::Other && looked_at(changed[i])[j].key@ == k {
            let (i, j) = choose|i: int, j: int|
                0 <= i < changed.len() && 0 <= j < looked_at(changed[i]).len() && (
                #[trigger] looked_at(changed[i])[j]).class == NodeClass::Other && looked_at(
                    changed[i],
                )[j].key@ == k;
            if i < rest.len() {
                assert(looked_at(rest[i])[j].key@ == k);
                assert(old.contains(k));
                let a = choose|a: int| 0 <= a < old.len() && old[a] == k;
                assert(all[a] == k);
            } else {
                assert(symbol_key()(last[j]) == Some(k));
                assert(own.contains(k));
                let a = choose|a: int| 0 <= a < own.len() && own[a] == k;
                assert(all[old.len() + a] == k);
            }
        }
    }
}

} // verus!
