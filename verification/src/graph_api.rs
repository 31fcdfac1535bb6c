//! The read-only views of the graph: how a request is read, what is answered,
//! and with which status.
use vstd::prelude::*;

use crate::graph::{Node, Provenance};
use crate::seqs::{filter_step, filtered};
use crate::text::{
    contains, copy_opt, has, is_among, join, join_of, opt_str_view, opt_view, same, split, split_of, views,
};

pub mod hotspots;
pub mod hub;
pub mod laws;
pub mod links;
pub mod subgraph;
pub mod view_laws;
pub mod views;
pub mod writing;

verus! {

// ---------------------------------------------------------------------------
// What a server offers
// ---------------------------------------------------------------------------

/// The optional surfaces of a server.
#[derive(Debug)]
pub struct Capabilities {
    /// The chat endpoint is mounted.
    pub ask: bool,
    /// The models it serves.
    pub models: Vec<String>,
}

impl Capabilities {
    /// A server without a model engine: nothing can be asked.
    pub fn explorer_only() -> (r: Self)
        ensures
            !r.ask,
            r.models@.len() == 0,
    {
        Capabilities { ask: false, models: Vec::new() }
    }
}

/// How many nodes a page holds where no limit is given.
pub const DEFAULT_NODE_LIMIT: usize = 100;

/// How many items a ranking holds where no limit is given.
pub const DEFAULT_HOTSPOTS: usize = 20;

/// How many secret-named keys are listed where no limit is given.
pub const DEFAULT_CONFIG_SECRETS: usize = 50;

/// How far from its root a neighbourhood may reach.
pub const MAX_DEPTH: usize = 5;

/// A number that was given, or its default.
pub fn given_or(given: Option<usize>, default: usize) -> (r: usize)
    ensures
        r == (match given {
            Some(n) => n,
            None => default,
        }),
{
    match given {
        Some(n) => n,
        None => default,
    }
}

/// How far a neighbourhood reaches: one hop unless another number was given, and
/// never beyond [`MAX_DEPTH`].
pub fn depth_of(given: Option<usize>) -> (r: usize)
    ensures
        r == (match given {
            Some(n) => if n <= MAX_DEPTH {
                n
            } else {
                MAX_DEPTH
            },
            None => 1,
        }),
{
    match given {
        Some(n) => if n <= MAX_DEPTH {
            n
        } else {
            MAX_DEPTH
        },
        None => 1,
    }
}

// ---------------------------------------------------------------------------
// Failures
// ---------------------------------------------------------------------------

/// A request that failed, by its answer.
#[derive(Debug)]
pub enum ApiError {
    /// 400: a parameter is malformed or missing.
    BadRequest(String),
    /// 404: what was addressed does not exist.
    NotFound(String),
    /// 500: something failed on this side.
    Internal(String),
}

impl ApiError {
    /// The HTTP status.
    pub open spec fn status_of(self) -> u16 {
        match self {
            ApiError::BadRequest(_) => 400,
            ApiError::NotFound(_) => 404,
            ApiError::Internal(_) => 500,
        }
    }

    /// The message.
    pub open spec fn text(self) -> Seq<char> {
        match self {
            ApiError::BadRequest(m) => m@,
            ApiError::NotFound(m) => m@,
            ApiError::Internal(m) => m@,
        }
    }

    /// The HTTP status.
    pub fn status(&self) -> (r: u16)
        ensures
            r == self.status_of(),
    {
        match self {
            ApiError::BadRequest(_) => 400,
            ApiError::NotFound(_) => 404,
            ApiError::Internal(_) => 500,
        }
    }

    /// The message.
    pub fn message(&self) -> (r: &str)
        ensures
            r@ == self.text(),
    {
        match self {
            ApiError::BadRequest(m) => m.as_str(),
            ApiError::NotFound(m) => m.as_str(),
            ApiError::Internal(m) => m.as_str(),
        }
    }
}

/// How reading a workspace failed.
#[derive(Debug, Clone, Copy, PartialEq, Eq, Structural)]
pub enum WorkspaceFault {
    UnknownWorkspace,
    UnknownProject,
    /// The project has no graph yet.
    NoGraph,
    /// A key that names no project.
    Unqualified,
    AmbiguousProject,
    AmbiguousWorkspace,
    /// Nothing is hosted.
    Empty,
    /// A lock, a store, git or a hook failed.
    Other,
}

/// Reading a workspace failed.
#[derive(Debug)]
pub struct WorkspaceError {
    pub fault: WorkspaceFault,
    pub text: String,
}

/// The status of a failure to read a workspace.
pub open spec fn fault_status(fault: WorkspaceFault) -> u16 {
    match fault {
        WorkspaceFault::UnknownWorkspace => 404,
        WorkspaceFault::UnknownProject => 404,
        WorkspaceFault::NoGraph => 404,
        WorkspaceFault::Unqualified => 400,
        WorkspaceFault::AmbiguousProject => 400,
        WorkspaceFault::AmbiguousWorkspace => 400,
        WorkspaceFault::Empty => 400,
        WorkspaceFault::Other => 500,
    }
}

/// The answer to a failure to read a workspace, in its own words.
pub fn workspace_failure(e: &WorkspaceError) -> (r: ApiError)
    ensures
        r.status_of() == fault_status(e.fault),
        r.text() == e.text@,
{
    let text = e.text.clone();
    match e.fault {
        WorkspaceFault::UnknownWorkspace => ApiError::NotFound(text),
        WorkspaceFault::UnknownProject => ApiError::NotFound(text),
        WorkspaceFault::NoGraph => ApiError::NotFound(text),
        WorkspaceFault::Unqualified => ApiError::BadRequest(text),
        WorkspaceFault::AmbiguousProject => ApiError::BadRequest(text),
        WorkspaceFault::AmbiguousWorkspace => ApiError::BadRequest(text),
        WorkspaceFault::Empty => ApiError::BadRequest(text),
        WorkspaceFault::Other => ApiError::Internal(text),
    }
}

/// A failure that only says that a link's target is not there.
pub open spec fn dangles(fault: WorkspaceFault) -> bool {
    match fault {
        WorkspaceFault::UnknownProject => true,
        WorkspaceFault::NoGraph => true,
        WorkspaceFault::Unqualified => true,
        WorkspaceFault::AmbiguousProject => true,
        WorkspaceFault::Empty => true,
        WorkspaceFault::UnknownWorkspace => false,
        WorkspaceFault::AmbiguousWorkspace => false,
        WorkspaceFault::Other => false,
    }
}

/// Whether a failure only says that a link's target is not there.
pub fn is_dangling(fault: WorkspaceFault) -> (r: bool)
    ensures
        r == dangles(fault),
{
    match fault {
        WorkspaceFault::UnknownProject => true,
        WorkspaceFault::NoGraph => true,
        WorkspaceFault::Unqualified => true,
        WorkspaceFault::AmbiguousProject => true,
        WorkspaceFault::Empty => true,
        WorkspaceFault::UnknownWorkspace => false,
        WorkspaceFault::AmbiguousWorkspace => false,
        WorkspaceFault::Other => false,
    }
}

/// What following a link gives: its target, nothing where the target is gone or
/// not hosted, or a failure that is more than one dangling link.
pub open spec fn link_target(followed: Result<Option<Node>, WorkspaceError>) -> Result<
    Option<Node>,
    WorkspaceFault,
> {
    match followed {
        Ok(n) => Ok(n),
        Err(e) => if dangles(e.fault) {
            Ok(None)
        } else {
            Err(e.fault)
        },
    }
}

/// What following a link gives. One dangling link fails no view.
pub fn resolve_link(followed: &Result<Option<Node>, WorkspaceError>) -> (r: Result<
    Option<Node>,
    ApiError,
>)
    ensures
        match link_target(*followed) {
            Ok(n) => r == Ok::<Option<Node>, ApiError>(n),
            Err(f) => r matches Err(e) && e.status_of() == fault_status(f),
        },
        (r matches Err(e) ==> followed matches Err(w) && e.text() == w.text@),
{
    match followed {
        Ok(n) => {
            let own = match n {
                Some(x) => Some(x.clone()),
                None => None,
            };
            Ok(own)
        },
        Err(e) => {
            if is_dangling(e.fault) {
                Ok(None)
            } else {
                Err(workspace_failure(e))
            }
        },
    }
}

/// The message for a node that is not in a project.
pub open spec fn no_node_of(key: Seq<char>, project: Seq<char>) -> Seq<char> {
    "no node `"@ + key + "` in project `"@ + project + "`"@
}

/// The answer for a node that is not in a project.
pub fn no_node(key: &str, project: &str) -> (r: ApiError)
    ensures
        r.status_of() == 404,
        r.text() == no_node_of(key@, project@),
{
    let mut s = "no node `".to_owned();
    s.append(key);
    s.append("` in project `");
    s.append(project);
    s.append("`");
    ApiError::NotFound(s)
}

/// The message for an order that does not exist.
pub open spec fn unknown_order_of(token: Seq<char>, known: Seq<Seq<char>>) -> Seq<char> {
    "unknown order `"@ + token + "` (expected "@ + join_of(known, "|"@) + ")"@
}

/// The answer for an order that does not exist. Another order is never put in
/// its place.
pub fn unknown_order(token: &str, known: &Vec<String>) -> (r: ApiError)
    ensures
        r.status_of() == 400,
        r.text() == unknown_order_of(token@, views(known@)),
{
    let mut s = "unknown order `".to_owned();
    s.append(token);
    s.append("` (expected ");
    s.append(join(known, "|").as_str());
    s.append(")");
    ApiError::BadRequest(s)
}

// ---------------------------------------------------------------------------
// Path parameters
// ---------------------------------------------------------------------------

/// The value of the first parameter with this name.
pub open spec fn param_of(params: Seq<(String, String)>, name: Seq<char>) -> Option<Seq<char>>
    decreases params.len(),
{
    if params.len() == 0 {
        None
    } else if params[0].0@ == name {
        Some(params[0].1@)
    } else {
        param_of(params.drop_first(), name)
    }
}

/// The value of the first parameter with this name.
pub fn param(params: &Vec<(String, String)>, name: &str) -> (r: Option<String>)
    ensures
        opt_view(r) == param_of(params@, name@),
{
    let mut i: usize = 0;
    assert(params@.skip(0) =~= params@);
    while i < params.len()
        invariant
            i <= params@.len(),
            param_of(params@, name@) == param_of(params@.skip(i as int), name@),
        decreases params@.len() - i,
    {
        assert(params@.skip(i as int)[0] == params@[i as int]);
        if same(params[i].0.as_str(), name) {
            return Some(params[i].1.clone());
        }
        assert(params@.skip(i as int).drop_first() =~= params@.skip(i + 1));
        i = i + 1;
    }
    None
}

/// The workspace a request asks for: the one its path names, else the server's
/// default.
pub fn workspace_asked(params: &Vec<(String, String)>, default: &Option<String>) -> (r: Option<
    String,
>)
    ensures
        opt_view(r) == (match param_of(params@, "ws"@) {
            Some(name) => Some(name),
            None => opt_view(*default),
        }),
{
    match param(params, "ws") {
        Some(name) => Some(name),
        None => copy_opt(default),
    }
}

/// The project a path names. A path without one is a fault of the routes.
pub fn require_project(params: &Vec<(String, String)>) -> (r: Result<String, ApiError>)
    ensures
        match param_of(params@, "project"@) {
            Some(p) => r matches Ok(s) && s@ == p,
            None => r matches Err(e) && e.status_of() == 500 && e.text()
                == "missing `project` path parameter"@,
        },
{
    match param(params, "project") {
        Some(p) => Ok(p),
        None => Err(ApiError::Internal("missing `project` path parameter".to_owned())),
    }
}

/// The node key a path names.
pub fn require_key(params: &Vec<(String, String)>) -> (r: Result<String, ApiError>)
    ensures
        match param_of(params@, "key"@) {
            Some(k) => r matches Ok(s) && s@ == k,
            None => r matches Err(e) && e.status_of() == 404 && e.text() == "missing node key"@,
        },
{
    match param(params, "key") {
        Some(k) => Ok(k),
        None => Err(ApiError::NotFound("missing node key".to_owned())),
    }
}

// ---------------------------------------------------------------------------
// Pages of nodes
// ---------------------------------------------------------------------------

/// What a page of nodes is asked with.
#[derive(Debug)]
pub struct NodesQuery {
    /// The kinds to keep, with commas between them.
    pub kinds: Option<String>,
    pub provenance: Option<String>,
    /// Part of a name or key, in any case.
    pub q: Option<String>,
    pub limit: Option<usize>,
    pub offset: Option<usize>,
}

/// A page of nodes.
#[derive(Debug)]
pub struct NodePage {
    pub nodes: Vec<Node>,
    /// How many nodes there are on all pages.
    pub total: usize,
    pub limit: usize,
    pub offset: usize,
}

/// The provenance with this token.
pub open spec fn provenance_named(s: Seq<char>) -> Option<Provenance> {
    if s == "derived"@ {
        Some(Provenance::Derived)
    } else if s == "authored"@ {
        Some(Provenance::Authored)
    } else if s == "inferred"@ {
        Some(Provenance::Inferred)
    } else {
        None
    }
}

/// The message for a provenance that does not exist.
pub open spec fn unknown_provenance(s: Seq<char>) -> Seq<char> {
    "unknown provenance `"@ + s + "` (expected derived|authored|inferred)"@
}

/// The provenance with this token, or a refusal.
pub fn parse_provenance(s: &str) -> (r: Result<Provenance, ApiError>)
    ensures
        match provenance_named(s@) {
            Some(p) => r == Ok::<Provenance, ApiError>(p),
            None => r matches Err(e) && e.status_of() == 400 && e.text() == unknown_provenance(s@),
        },
{
    if same(s, "derived") {
        Ok(Provenance::Derived)
    } else if same(s, "authored") {
        Ok(Provenance::Authored)
    } else if same(s, "inferred") {
        Ok(Provenance::Inferred)
    } else {
        let mut m = "unknown provenance `".to_owned();
        m.append(s);
        m.append("` (expected derived|authored|inferred)");
        Err(ApiError::BadRequest(m))
    }
}

/// A string in lower case as the Unicode tables have it.
pub uninterp spec fn lowercase_of(s: Seq<char>) -> Seq<char>;

/// `str::to_lowercase` of std: the same string always gives the same result,
/// which is what the name stands for. Which characters change, and to what, is
/// in the Unicode tables and not stated here.
#[verifier::external_body]
fn lowercase(s: &str) -> (r: String)
    ensures
        r@ == lowercase_of(s@),
{
    s.to_lowercase()
}

/// The text is not empty.
pub open spec fn nonempty() -> spec_fn(Seq<char>) -> bool {
    |s: Seq<char>| s.len() > 0
}

/// The kinds of a comma-separated list, without empty ones.
pub open spec fn kinds_of(s: Seq<char>) -> Seq<Seq<char>> {
    split_of(s, ',').filter(nonempty())
}

/// The kinds of a comma-separated list, without empty ones.
pub fn kinds_listed(s: &str) -> (r: Vec<String>)
    ensures
        views(r@) == kinds_of(s@),
{
    let parts = split(s, ',');
    let mut r: Vec<String> = Vec::new();
    let mut i: usize = 0;
    proof {
        reveal(Seq::filter);
        assert(views(r@) =~= views(parts@).take(0).filter(nonempty()));
    }
    while i < parts.len()
        invariant
            i <= parts@.len(),
            views(r@) == views(parts@).take(i as int).filter(nonempty()),
        decreases parts@.len() - i,
    {
        proof {
            filter_step(views(parts@), i as int, nonempty());
        }
        if parts[i].as_str().unicode_len() > 0 {
            let ghost was = r@;
            r.push(parts[i].clone());
            assert(views(r@) =~= views(was).push(parts@[i as int]@));
        }
        i = i + 1;
    }
    assert(views(parts@).take(parts@.len() as int) =~= views(parts@));
    r
}

/// The node passes the filters, given its name and key in lower case. A filter
/// that was not given lets every node pass.
pub open spec fn passes(
    n: Node,
    name: Seq<char>,
    key: Seq<char>,
    kinds: Option<Seq<Seq<char>>>,
    provenance: Option<Provenance>,
    needle: Option<Seq<char>>,
) -> bool {
    &&& kinds matches Some(ks) ==> ks.contains(n.kind@)
    &&& provenance matches Some(p) ==> n.provenance == p
    &&& needle matches Some(q) ==> contains(name, q) || contains(key, q)
}

/// The kinds as a list of texts.
pub open spec fn listed(kinds: Option<Vec<String>>) -> Option<Seq<Seq<char>>> {
    match kinds {
        Some(v) => Some(views(v@)),
        None => None,
    }
}

/// Whether a node passes the filters, given its name and key in lower case.
pub fn node_passes(
    n: &Node,
    name: &str,
    key: &str,
    kinds: &Option<Vec<String>>,
    provenance: Option<Provenance>,
    needle: &Option<String>,
) -> (r: bool)
    ensures
        r == passes(*n, name@, key@, listed(*kinds), provenance, opt_view(*needle)),
{
    let by_kind = match kinds {
        Some(ks) => is_among(ks, n.kind.as_str()),
        None => true,
    };
    let by_provenance = match provenance {
        Some(p) => n.provenance == p,
        None => true,
    };
    let by_text = match needle {
        Some(q) => has(name, q.as_str()) || has(key, q.as_str()),
        None => true,
    };
    by_kind && by_provenance && by_text
}

/// What a page of nodes is filtered by.
pub open spec fn filter_of(q: NodesQuery, provenance: Option<Provenance>) -> spec_fn(Node) -> bool {
    |n: Node|
        passes(
            n,
            lowercase_of(n.name@),
            lowercase_of(n.key@),
            (match q.kinds {
                Some(k) => Some(kinds_of(k@)),
                None => None,
            }),
            provenance,
            (match q.q {
                Some(s) => Some(lowercase_of(s@)),
                None => None,
            }),
        )
}

/// The items from `offset` on, at most `limit` of them.
pub open spec fn page_of<T>(s: Seq<T>, offset: int, limit: int) -> Seq<T> {
    let from = if offset < s.len() {
        offset
    } else {
        s.len() as int
    };
    let to = if from + limit < s.len() {
        from + limit
    } else {
        s.len() as int
    };
    s.subrange(from, to)
}

/// The provenance that a query asks for; `Err` holds a token that is none.
pub open spec fn asked_provenance(q: NodesQuery) -> Result<Option<Provenance>, Seq<char>> {
    match q.provenance {
        None => Ok(None),
        Some(s) => match provenance_named(s@) {
            Some(p) => Ok(Some(p)),
            None => Err(s@),
        },
    }
}

/// The nodes that a query asks for, and how many there are before paging.
pub fn project_nodes(nodes: &Vec<Node>, q: &NodesQuery) -> (r: Result<NodePage, ApiError>)
    ensures
        match asked_provenance(*q) {
            Err(token) => r matches Err(e) && e.status_of() == 400 && e.text()
                == unknown_provenance(token),
            Ok(p) => r matches Ok(page) && page.total == nodes@.filter(filter_of(*q, p)).len()
                && page.offset == (match q.offset {
                Some(n) => n,
                None => 0,
            }) && page.limit == (match q.limit {
                Some(n) => n,
                None => DEFAULT_NODE_LIMIT,
            }) && page.nodes@ == page_of(
                nodes@.filter(filter_of(*q, p)),
                page.offset as int,
                page.limit as int,
            ),
        },
{
    let provenance = match &q.provenance {
        Some(s) => match parse_provenance(s.as_str()) {
            Ok(p) => Some(p),
            Err(e) => {
                return Err(e);
            },
        },
        None => None,
    };
    let kinds: Option<Vec<String>> = match &q.kinds {
        Some(s) => Some(kinds_listed(s.as_str())),
        None => None,
    };
    let needle: Option<String> = match &q.q {
        Some(s) => Some(lowercase(s.as_str())),
        None => None,
    };
    let offset = given_or(q.offset, 0);
    let limit = given_or(q.limit, DEFAULT_NODE_LIMIT);
    let ghost p = filter_of(*q, provenance);
    let ghost all = nodes@.filter(p);
    let mut kept: Vec<Node> = Vec::new();
    let mut total: usize = 0;
    let mut i: usize = 0;
    proof {
        reveal(Seq::filter);
        assert(kept@ =~= page_of(nodes@.take(0).filter(p), offset as int, limit as int));
    }
    while i < nodes.len()
        invariant
            i <= nodes@.len(),
            p == filter_of(*q, provenance),
            listed(kinds) == (match q.kinds {
                Some(k) => Some(kinds_of(k@)),
                None => None,
            }),
            opt_view(needle) == (match q.q {
                Some(s) => Some(lowercase_of(s@)),
                None => None,
            }),
            total == nodes@.take(i as int).filter(p).len(),
            total <= i,
            kept@ == page_of(nodes@.take(i as int).filter(p), offset as int, limit as int),
        decreases nodes@.len() - i,
    {
        proof {
            filter_step(nodes@, i as int, p);
        }
        let n = &nodes[i];
        let name = lowercase(n.name.as_str());
        let key = lowercase(n.key.as_str());
        if node_passes(n, name.as_str(), key.as_str(), &kinds, provenance, &needle) {
            let ghost before = nodes@.take(i as int).filter(p);
            if total >= offset && total - offset < limit {
                kept.push(n.clone());
            }
            assert(kept@ =~= page_of(before.push(*n), offset as int, limit as int));
            total = total + 1;
        }
        i = i + 1;
    }
    assert(nodes@.take(nodes@.len() as int) =~= nodes@);
    Ok(NodePage { nodes: kept, total, limit, offset })
}

// ---------------------------------------------------------------------------
// Following a link
// ---------------------------------------------------------------------------

/// Where following a key leads.
#[derive(Debug)]
pub enum Follow {
    /// The struct that defines a setting, with the field.
    StructField(Node, String),
    /// The node itself.
    Node(Node),
    /// The node is gone.
    Drift,
}

/// The answer to following a key.
#[derive(Debug)]
pub struct FollowReply {
    pub target: Option<Node>,
    /// What the target is.
    pub kind: Option<&'static str>,
    pub field: Option<String>,
    pub drift: bool,
}

/// The answer to following a key. A config key that leads no further stays one;
/// any other node is a definition.
pub fn follow_reply(f: &Follow) -> (r: FollowReply)
    ensures
        r.drift == (r.target is None),
        match f {
            Follow::StructField(n, field) => r.target == Some(*n) && opt_str_view(r.kind) == Some(
                "struct_field"@,
            ) && opt_view(r.field) == Some(field@),
            Follow::Node(n) => r.target == Some(*n) && r.field is None && opt_str_view(r.kind) == Some(
                if n.kind@ == "config_key"@ {
                    "config_key"@
                } else {
                    "struct_field"@
                },
            ),
            Follow::Drift => r.target is None && r.kind is None && r.field is None,
        },
{
    match f {
        Follow::StructField(n, field) => FollowReply {
            target: Some(n.clone()),
            kind: Some("struct_field"),
            field: Some(field.clone()),
            drift: false,
        },
        Follow::Node(n) => {
            let kind = if same(n.kind.as_str(), "config_key") {
                "config_key"
            } else {
                "struct_field"
            };
            FollowReply { target: Some(n.clone()), kind: Some(kind), field: None, drift: false }
        },
        Follow::Drift => FollowReply { target: None, kind: None, field: None, drift: true },
    }
}

/// The message for a missing key.
pub const MISSING_QUALIFIED: &'static str = "missing `qualified` query parameter";

/// The key that a request gives, or a refusal.
pub fn require_qualified(given: &Option<String>) -> (r: Result<String, ApiError>)
    ensures
        match given {
            Some(q) => r matches Ok(s) && s@ == q@,
            None => r matches Err(e) && e.status_of() == 400 && e.text() == MISSING_QUALIFIED@,
        },
{
    match given {
        Some(q) => Ok(q.clone()),
        None => Err(ApiError::BadRequest(MISSING_QUALIFIED.to_owned())),
    }
}

/// The message for a key that names no project.
pub open spec fn not_qualified(q: Seq<char>) -> Seq<char> {
    "`"@ + q + "` is not a project-qualified `<proj>::<key>`"@
}

/// The project a key leads to, given what was read from it, or a refusal.
pub fn followed_project(qualified: &str, project: &Option<String>) -> (r: Result<String, ApiError>)
    ensures
        match project {
            Some(p) => r matches Ok(s) && s@ == p@,
            None => r matches Err(e) && e.status_of() == 400 && e.text() == not_qualified(
                qualified@,
            ),
        },
{
    match project {
        Some(p) => Ok(p.clone()),
        None => {
            let mut s = "`".to_owned();
            s.append(qualified);
            s.append("` is not a project-qualified `<proj>::<key>`");
            Err(ApiError::BadRequest(s))
        },
    }
}

// ---------------------------------------------------------------------------
// Generated content
// ---------------------------------------------------------------------------

/// Why nothing was generated. The numbers are written out, not computed with.
#[derive(Debug)]
pub struct MediaSkip {
    pub reason: String,
    pub metric: String,
    pub value: String,
    pub threshold: String,
    pub explanation: String,
}

impl Clone for MediaSkip {
    fn clone(&self) -> (r: Self)
        ensures
            r == *self,
    {
        MediaSkip {
            reason: self.reason.clone(),
            metric: self.metric.clone(),
            value: self.value.clone(),
            threshold: self.threshold.clone(),
            explanation: self.explanation.clone(),
        }
    }
}

/// What came of generating content: a text, or why there is none.
#[derive(Debug)]
pub enum MediaOutcome {
    Generated(String),
    Skipped(MediaSkip),
}

/// Who generated a text, and with what.
#[derive(Debug)]
pub struct Producer {
    pub id: String,
    pub model: String,
    pub kind: String,
    pub quantisation: String,
    pub prompt: String,
}

impl Clone for Producer {
    fn clone(&self) -> (r: Self)
        ensures
            r == *self,
    {
        Producer {
            id: self.id.clone(),
            model: self.model.clone(),
            kind: self.kind.clone(),
            quantisation: self.quantisation.clone(),
            prompt: self.prompt.clone(),
        }
    }
}

/// A record of generated content.
#[derive(Debug)]
pub struct MediaRecord {
    pub producer: Producer,
    pub blob_id: String,
    pub path: String,
    pub generation: u64,
    pub produced_at: String,
    pub tool_version: String,
    pub outcome: MediaOutcome,
}

/// A record as it is shown: marked as generated, with its producer, and with
/// either a text or the reason for its absence.
#[derive(Debug)]
pub struct GeneratedRecord {
    pub generated: bool,
    pub producer: Producer,
    pub blob: String,
    pub path: String,
    pub generation: u64,
    pub produced_at: String,
    pub tool_version: String,
    pub text: Option<String>,
    pub skipped: Option<MediaSkip>,
    /// The command that generates it again.
    pub rebuild: String,
}

/// The command that generates a blob's media content again.
pub open spec fn rebuild_of(blob: Seq<char>) -> Seq<char> {
    "roteiro media build --blob "@ + blob + " --force"@
}

/// The command that generates a blob's media content again.
pub fn rebuild_command(blob: &str) -> (r: String)
    ensures
        r@ == rebuild_of(blob@),
{
    let mut s = "roteiro media build --blob ".to_owned();
    s.append(blob);
    s.append(" --force");
    s
}

/// `r` shows the record `m`.
pub open spec fn shows_record(r: GeneratedRecord, m: MediaRecord) -> bool {
    &&& r.generated
    &&& r.producer == m.producer
    &&& r.blob == m.blob_id
    &&& r.path == m.path
    &&& r.generation == m.generation
    &&& r.produced_at == m.produced_at
    &&& r.tool_version == m.tool_version
    &&& r.rebuild@ == rebuild_of(m.blob_id@)
    &&& match m.outcome {
        MediaOutcome::Generated(t) => r.text == Some(t) && r.skipped is None,
        MediaOutcome::Skipped(s) => r.text is None && r.skipped == Some(s),
    }
}

fn show_record(m: &MediaRecord) -> (r: GeneratedRecord)
    ensures
        shows_record(r, *m),
{
    let mut text: Option<String> = None;
    let mut skipped: Option<MediaSkip> = None;
    match &m.outcome {
        MediaOutcome::Generated(t) => {
            text = Some(t.clone());
        },
        MediaOutcome::Skipped(s) => {
            skipped = Some(s.clone());
        },
    }
    GeneratedRecord {
        generated: true,
        producer: m.producer.clone(),
        blob: m.blob_id.clone(),
        path: m.path.clone(),
        generation: m.generation,
        produced_at: m.produced_at.clone(),
        tool_version: m.tool_version.clone(),
        text,
        skipped,
        rebuild: rebuild_command(m.blob_id.as_str()),
    }
}

/// The record is of the blob.
pub open spec fn of_blob(blob: Seq<char>) -> spec_fn(MediaRecord) -> bool {
    |m: MediaRecord| m.blob_id@ == blob
}

/// The records of a node's blob; none where it has no blob.
pub open spec fn blob_records(records: Seq<MediaRecord>, blob: Option<Seq<char>>) -> Seq<
    MediaRecord,
> {
    match blob {
        Some(b) => records.filter(of_blob(b)),
        None => Seq::empty(),
    }
}

/// The generated content of a blob, as it is shown.
pub fn generated_for_blob(records: &Vec<MediaRecord>, blob: &str) -> (r: Vec<GeneratedRecord>)
    ensures
        r@.len() == records@.filter(of_blob(blob@)).len(),
        forall|i: int|
            #![trigger r@[i]]
            0 <= i < r@.len() ==> shows_record(r@[i], records@.filter(of_blob(blob@))[i]),
{
    let ghost p = of_blob(blob@);
    let mut r: Vec<GeneratedRecord> = Vec::new();
    let mut i: usize = 0;
    proof {
        reveal(Seq::filter);
        assert(records@.take(0).filter(p).len() == 0);
    }
    while i < records.len()
        invariant
            i <= records@.len(),
            p == of_blob(blob@),
            r@.len() == records@.take(i as int).filter(p).len(),
            forall|k: int|
                #![trigger r@[k]]
                0 <= k < r@.len() ==> shows_record(r@[k], records@.take(i as int).filter(p)[k]),
        decreases records@.len() - i,
    {
        proof {
            filter_step(records@, i as int, p);
        }
        if same(records[i].blob_id.as_str(), blob) {
            let ghost was = r@;
            let ghost before = records@.take(i as int).filter(p);
            let one = show_record(&records[i]);
            r.push(one);
            proof {
                let now = records@.take(i + 1).filter(p);
                assert(now == before.push(records@[i as int]));
                assert forall|k: int| #![trigger r@[k]] 0 <= k < r@.len() implies shows_record(
                    r@[k],
                    now[k],
                ) by {
                    if k < was.len() {
                        assert(r@[k] == was[k]);
                        assert(now[k] == before[k]);
                    }
                }
            }
        }
        i = i + 1;
    }
    assert(records@.take(records@.len() as int) =~= records@);
    r
}

/// What a node's detail adds to its explanation: the generated content of its
/// blob, an empty list where it has none. A node that is not there is answered
/// as such.
pub fn node_detail(
    explained: bool,
    blob: &Option<String>,
    records: &Vec<MediaRecord>,
    key: &str,
    project: &str,
) -> (r: Result<Vec<GeneratedRecord>, ApiError>)
    ensures
        match r {
            Ok(v) => {
                let own = blob_records(records@, opt_view(*blob));
                &&& explained
                &&& v@.len() == own.len()
                &&& forall|i: int|
                    #![trigger v@[i]]
                    0 <= i < v@.len() ==> shows_record(v@[i], own[i])
            },
            Err(e) => !explained && e.status_of() == 404 && e.text() == no_node_of(key@, project@),
        },
{
    if !explained {
        return Err(no_node(key, project));
    }
    match blob {
        Some(b) => Ok(generated_for_blob(records, b.as_str())),
        None => Ok(Vec::new()),
    }
}

// ---------------------------------------------------------------------------
// Laws
// ---------------------------------------------------------------------------

/// Pages of one size, read one after the other, hold every item once and in
/// order.
pub proof fn pages_join_up<T>(s: Seq<T>, limit: int, n: int)
    requires
        limit >= 0,
        n >= 0,
    ensures
        page_of(s, 0, n * limit) + page_of(s, n * limit, limit) == page_of(s, 0, (n + 1) * limit),
{
    assert((n + 1) * limit == n * limit + limit) by (nonlinear_arith);
    assert(n * limit >= 0) by (nonlinear_arith)
        requires
            limit >= 0,
            n >= 0,
    ;
    assert(page_of(s, 0, n * limit) + page_of(s, n * limit, limit) =~= page_of(
        s,
        0,
        (n + 1) * limit,
    ));
}

/// No page holds more than its limit, nor a node that the filters refuse.
pub proof fn a_page_keeps_to_its_query(
    nodes: Seq<Node>,
    q: NodesQuery,
    p: Option<Provenance>,
    offset: int,
    limit: int,
)
    requires
        offset >= 0,
        limit >= 0,
    ensures
        ({
            let page = page_of(nodes.filter(filter_of(q, p)), offset, limit);
            page.len() <= limit && forall|i: int|
                #![trigger page[i]]
                0 <= i < page.len() ==> filter_of(q, p)(page[i]) && nodes.contains(page[i])
        }),
{
    let all = nodes.filter(filter_of(q, p));
    let page = page_of(all, offset, limit);
    filtered(nodes, filter_of(q, p));
    assert forall|i: int| #![trigger page[i]] 0 <= i < page.len() implies filter_of(q, p)(page[i])
        && nodes.contains(page[i]) by {
        let from = if offset < all.len() {
            offset
        } else {
            all.len() as int
        };
        assert(page[i] == all[from + i]);
    }
}

/// In which case a search is written does not matter: queries that agree in
/// lower case find the same nodes.
pub proof fn a_search_ignores_case(a: NodesQuery, b: NodesQuery, p: Option<Provenance>, n: Node)
    requires
        a.kinds == b.kinds,
        a.q matches Some(s) ==> b.q matches Some(t) && lowercase_of(s@) == lowercase_of(t@),
        a.q is None ==> b.q is None,
    ensures
        filter_of(a, p)(n) == filter_of(b, p)(n),
{
}

} // verus!
