use roteiro::graph::{
    cfgkey_node, external_ref_key, qualify, ConfigKey, Edge, Node, NodeClass, Placeholder,
    Provenance, Score,
};
use roteiro::graph_api::hotspots::compute_hotspots;
use roteiro::graph_api::hub::{
    config_key_count_hub, determine_hub, effective_hub, external_refs,
    workspace_has_external_refs, Link, Project, Referenced,
};
use roteiro::graph_api::links::spoke_correspondence;
use roteiro::graph_api::subgraph::neighbourhood_subgraph;
use roteiro::graph_api::views::{
    cfgkey_file, config_values, matrix, project_links, topology, FollowedLink, ProjectLink,
    SpokeView, Topology,
};
use roteiro::graph_api::writing::{
    total_written, write_plan, write_reply, SpokePlan, NOTHING_TO_INFER,
};
use roteiro::graph_api::{
    depth_of, follow_reply, followed_project, given_or, is_dangling, kinds_listed, node_detail,
    param, parse_provenance, project_nodes, rebuild_command, require_key, require_project,
    require_qualified, resolve_link, unknown_order, workspace_asked, workspace_failure, ApiError,
    Capabilities, Follow, MediaOutcome, MediaRecord, MediaSkip, NodesQuery, Producer,
    WorkspaceError, WorkspaceFault, DEFAULT_NODE_LIMIT, MAX_DEPTH,
};
use roteiro::infer_links::SpelledKey;
use roteiro::names::NameMap;
use roteiro::overview::OverrideMatrix;

/// The hub project's name.
const HUB: &str = "hub";
/// The spoke project's name.
const SPOKE: &str = "spoke";

// -- stores in memory ------------------------------------------------------

/// What a store holds, as far as the views read it.
struct Store {
    nodes: Vec<Node>,
    edges: Vec<Edge>,
    keys: Vec<SpelledKey>,
}

fn score(x: f64) -> Score {
    Score {
        bits: x.to_bits(),
        shown: format!("{x:.2}"),
    }
}

fn node(key: &str, kind: &str, name: &str) -> Node {
    Node {
        key: key.to_owned(),
        name: name.to_owned(),
        kind: kind.to_owned(),
        class: NodeClass::Other,
        provenance: Provenance::Derived,
        path: None,
    }
}

fn edge(src: &str, dst: &str, kind: &str, provenance: Provenance, c: Option<f64>) -> Edge {
    Edge {
        src: src.to_owned(),
        dst: dst.to_owned(),
        kind: kind.to_owned(),
        provenance,
        confidence: c.map(score),
        src_ref: None,
    }
}

/// A key with its normalised and canonical spellings.
fn spelled(file: &str, dotted: &str, value: &str) -> SpelledKey {
    let lower = dotted.to_ascii_lowercase();
    let norm: Vec<&str> = lower
        .split(|c: char| !c.is_ascii_alphanumeric())
        .filter(|s| !s.is_empty())
        .collect();
    let canon: Vec<String> = lower
        .split('.')
        .map(|s| s.chars().filter(char::is_ascii_alphanumeric).collect())
        .collect();
    SpelledKey {
        own: ConfigKey {
            file: file.to_owned(),
            key: dotted.to_owned(),
            value: value.to_owned(),
        },
        norm: norm.join("."),
        canon: canon.join("."),
    }
}

impl Store {
    fn new() -> Self {
        Store {
            nodes: vec![],
            edges: vec![],
            keys: vec![],
        }
    }

    fn with_node(mut self, n: Node) -> Self {
        if self.nodes.iter().all(|m| m.key != n.key) {
            self.nodes.push(n);
        }
        self
    }

    fn with_edge(mut self, e: Edge) -> Self {
        self.edges.push(e);
        self
    }

    fn with_key(mut self, file: &str, dotted: &str, value: &str) -> Self {
        self.keys.push(spelled(file, dotted, value));
        let mut n = node(&cfgkey_node(file, dotted), "config_key", dotted);
        n.path = Some(file.to_owned());
        self.with_node(n)
    }

    fn linking(self, from: &str, target: &str, p: Provenance, c: Option<f64>) -> Self {
        let to = external_ref_key(target);
        self.with_node(node(&to, "external_ref", target)).with_edge(edge(
            &cfgkey_node("deploy.env", from),
            &to,
            "references",
            p,
            c,
        ))
    }

    fn inferred(self, from: &str, target: &str, c: f64) -> Self {
        self.linking(from, target, Provenance::Inferred, Some(c))
    }

    fn authored(self, from: &str, target: &str) -> Self {
        self.linking(from, target, Provenance::Authored, None)
    }

    /// The nodes that stand in for nodes elsewhere, with the edges into them.
    fn referenced(&self) -> Vec<Referenced> {
        self.nodes
            .iter()
            .filter(|n| n.kind == "external_ref")
            .map(|n| {
                let q = n.key.strip_prefix("extref:").unwrap();
                Referenced {
                    node: Placeholder {
                        key: n.key.clone(),
                        qualified: Some(q.to_owned()),
                        project: q.split_once("::").map(|(p, _)| p.to_owned()),
                    },
                    edges: self
                        .edges
                        .iter()
                        .filter(|e| e.dst == n.key)
                        .cloned()
                        .collect(),
                }
            })
            .collect()
    }

    fn own_keys(&self) -> Vec<ConfigKey> {
        self.keys.iter().map(|k| k.own.clone()).collect()
    }

    fn spellings(&self) -> Vec<SpelledKey> {
        self.keys
            .iter()
            .map(|k| spelled(&k.own.file, &k.own.key, &k.own.value))
            .collect()
    }
}

struct Workspace(Vec<(&'static str, Store)>);

impl Workspace {
    fn store(&self, name: &str) -> &Store {
        &self.0.iter().find(|(n, _)| *n == name).unwrap().1
    }

    fn projects(&self) -> Vec<Project> {
        self.0
            .iter()
            .map(|(name, s)| Project {
                name: (*name).to_owned(),
                links: external_refs(&s.referenced()),
                keys: s.spellings(),
            })
            .collect()
    }

    /// Follows a qualified key to the node it names.
    fn follow_key(&self, qualified: &str) -> Result<Option<Node>, WorkspaceError> {
        let fail = |fault, text: String| Err(WorkspaceError { fault, text });
        let Some((project, key)) = qualified.split_once("::") else {
            return fail(
                WorkspaceFault::Unqualified,
                format!("`{qualified}` is not qualified"),
            );
        };
        match self.0.iter().find(|(n, _)| *n == project) {
            None => fail(
                WorkspaceFault::UnknownProject,
                format!("no project named `{project}`"),
            ),
            Some((_, s)) => Ok(s.nodes.iter().find(|n| n.key == key).cloned()),
        }
    }

    fn followed(&self, links: Vec<Link>) -> Vec<FollowedLink> {
        links
            .into_iter()
            .map(|link| FollowedLink {
                followed: self.follow_key(link.node.qualified.as_deref().unwrap()),
                link,
            })
            .collect()
    }

    fn hub(&self) -> Option<String> {
        effective_hub(&self.projects())
    }

    fn spokes(&self) -> Vec<SpokeView> {
        let hub = self.hub();
        let hub_keys = hub
            .as_deref()
            .map_or_else(Vec::new, |h| self.store(h).spellings());
        self.projects()
            .into_iter()
            .map(|p| {
                let c = spoke_correspondence(&p, &hub, &hub_keys);
                SpokeView {
                    keys: p.keys.into_iter().map(|k| k.own).collect(),
                    name: p.name,
                    refs: self.followed(c.refs),
                    orphans: c.orphans,
                }
            })
            .collect()
    }

    fn topology(&self) -> Topology {
        topology(&self.hub(), &self.spokes()).expect("200")
    }

    fn matrix(&self) -> Option<OverrideMatrix> {
        let hub = self.hub();
        let keys = hub
            .as_deref()
            .map_or_else(Vec::new, |h| self.store(h).own_keys());
        matrix(&hub, &keys, &self.spokes()).expect("200")
    }

    fn links(&self, project: &str) -> Vec<ProjectLink> {
        let s = self.store(project);
        let refs = self.followed(external_refs(&s.referenced()));
        project_links(&s.own_keys(), &refs).expect("200")
    }
}

fn hub_store() -> Store {
    Store::new()
        .with_node(node("sym:main", "fn", "main"))
        .with_node(node("sym:helper", "fn", "helper"))
        .with_key("config.toml", "serve.addr", "127.0.0.1:8017")
        .with_key("config.toml", "serve.tools", "true")
        .with_edge(edge(
            "sym:main",
            "sym:helper",
            "calls",
            Provenance::Derived,
            None,
        ))
}

fn at_hub(key: &str) -> String {
    qualify(HUB, &cfgkey_node("config.toml", key))
}

/// One key linked to a live hub key, and one linked to a missing one.
fn spoke_store() -> Store {
    Store::new()
        .with_key("deploy.env", "SERVE_ADDR", "0.0.0.0:8443")
        .with_key("deploy.env", "LEGACY_ADDR", "10.0.0.1:9000")
        .inferred("SERVE_ADDR", &at_hub("serve.addr"), 0.9)
        .inferred("LEGACY_ADDR", &at_hub("serve.legacy"), 0.8)
}

fn spoke_mixed_provenance() -> Store {
    Store::new()
        .with_key("deploy.env", "SERVE_ADDR", "0.0.0.0:8443")
        .with_key("deploy.env", "SERVE_TOOLS", "false")
        .inferred("SERVE_ADDR", &at_hub("serve.addr"), 0.9)
        .authored("SERVE_TOOLS", &at_hub("serve.tools"))
}

fn spoke_authored_inferred_drift() -> Store {
    Store::new()
        .with_key("deploy.env", "SERVE_ADDR", "0.0.0.0:8443")
        .with_key("deploy.env", "SERVE_TOOLS", "false")
        .with_key("deploy.env", "LEGACY_ADDR", "10.0.0.1:9000")
        .inferred("SERVE_ADDR", &at_hub("serve.addr"), 0.9)
        .authored("SERVE_TOOLS", &at_hub("serve.tools"))
        .inferred("LEGACY_ADDR", &at_hub("serve.legacy"), 0.8)
}

/// Two distinct keys point at the same hub key, one inferred, one authored; a
/// third drifts.
fn spoke_shared_target_and_drift() -> Store {
    Store::new()
        .with_key("deploy.env", "SERVE_ADDR", "0.0.0.0:8443")
        .with_key("deploy.env", "PROXY_ADDR", "0.0.0.0:9443")
        .with_key("deploy.env", "LEGACY_ADDR", "10.0.0.1:9000")
        .inferred("SERVE_ADDR", &at_hub("serve.addr"), 0.9)
        .authored("PROXY_ADDR", &at_hub("serve.addr"))
        .inferred("LEGACY_ADDR", &at_hub("serve.legacy"), 0.8)
}

/// Links to a project that is not hosted, and perhaps one to the hub.
fn spoke_linking_unhosted(to_ghost: usize, link_hub: bool) -> Store {
    let mut s = Store::new();
    if link_hub {
        s = s
            .with_key("deploy.env", "HUB_ADDR", "0.0.0.0:8443")
            .inferred("HUB_ADDR", &at_hub("serve.addr"), 0.9);
    }
    for i in 0..to_ghost {
        let key = format!("GHOST_{i}");
        s = s
            .with_key("deploy.env", &key, "x")
            .inferred(&key, &format!("ghost::cfgkey:g.env#K{i}"), 0.8);
    }
    s
}

fn infer_hub_store() -> Store {
    Store::new()
        .with_key("config.toml", "serve.addr", "127.0.0.1:8017")
        .with_key("config.toml", "serve.tools", "true")
        .with_key("config.toml", "serve.workers", "4")
}

fn infer_spoke_store() -> Store {
    Store::new()
        .with_key("deploy.env", "SERVE_ADDR", "0.0.0.0:8443")
        .with_key("deploy.env", "SERVE_TOOLS", "false")
        .with_key("deploy.env", "EXTRA_FLAG", "on")
}

fn inferable_workspace() -> Workspace {
    Workspace(vec![(HUB, infer_hub_store()), (SPOKE, infer_spoke_store())])
}

fn linked_workspace() -> Workspace {
    Workspace(vec![(HUB, hub_store()), (SPOKE, spoke_store())])
}

fn with_hub(spoke: Store) -> Workspace {
    Workspace(vec![(HUB, hub_store()), (SPOKE, spoke)])
}

fn solo_workspace() -> Workspace {
    Workspace(vec![(
        HUB,
        Store::new().with_node(node("sym:only", "fn", "only")),
    )])
}

// -- capabilities and requests ---------------------------------------------

#[test]
fn capabilities_report_ask_off_for_the_llama_free_explorer() {
    let caps = Capabilities::explorer_only();
    assert!(!caps.ask, "explorer build cannot Ask");
    assert!(caps.models.is_empty(), "no model is served");
}

fn params(items: &[(&str, &str)]) -> Vec<(String, String)> {
    items
        .iter()
        .map(|(k, v)| ((*k).to_owned(), (*v).to_owned()))
        .collect()
}

#[test]
fn flat_route_honours_the_named_default() {
    let solo = Some("solo".to_owned());
    assert_eq!(workspace_asked(&params(&[("project", "hub")]), &solo), solo);
    assert_eq!(
        workspace_asked(&params(&[("ws", "linked"), ("project", "hub")]), &solo),
        Some("linked".to_owned())
    );
    assert_eq!(workspace_asked(&params(&[]), &None), None);
}

#[test]
fn path_parameters_are_found_by_name() {
    let p = params(&[("project", "hub"), ("key", "sym:main"), ("key", "second")]);
    assert_eq!(param(&p, "key"), Some("sym:main".to_owned()));
    assert_eq!(param(&p, "ws"), None);
    assert_eq!(require_project(&p).unwrap(), "hub");
    assert_eq!(require_key(&p).unwrap(), "sym:main");
    let none = params(&[]);
    let e = require_project(&none).unwrap_err();
    assert_eq!(
        (e.status(), e.message()),
        (500, "missing `project` path parameter")
    );
    let e = require_key(&none).unwrap_err();
    assert_eq!((e.status(), e.message()), (404, "missing node key"));
}

fn failing(fault: WorkspaceFault) -> WorkspaceError {
    WorkspaceError {
        fault,
        text: "why".to_owned(),
    }
}

#[test]
fn unknown_workspace_is_404() {
    let e = workspace_failure(&failing(WorkspaceFault::UnknownWorkspace));
    assert_eq!((e.status(), e.message()), (404, "why"));
}

#[test]
fn unknown_project_is_404() {
    let e = workspace_failure(&failing(WorkspaceFault::UnknownProject));
    assert_eq!(e.status(), 404);
}

#[test]
fn flat_route_is_ambiguous_without_a_default() {
    let e = workspace_failure(&failing(WorkspaceFault::AmbiguousWorkspace));
    assert_eq!(e.status(), 400);
}

#[test]
fn each_fault_has_its_status() {
    for (fault, status, dangling) in [
        (WorkspaceFault::UnknownWorkspace, 404, false),
        (WorkspaceFault::UnknownProject, 404, true),
        (WorkspaceFault::NoGraph, 404, true),
        (WorkspaceFault::Unqualified, 400, true),
        (WorkspaceFault::AmbiguousProject, 400, true),
        (WorkspaceFault::AmbiguousWorkspace, 400, false),
        (WorkspaceFault::Empty, 400, true),
        (WorkspaceFault::Other, 500, false),
    ] {
        assert_eq!(workspace_failure(&failing(fault)).status(), status);
        assert_eq!(is_dangling(fault), dangling, "{fault:?}");
        match resolve_link(&Err(failing(fault))) {
            Ok(n) => assert!(dangling && n.is_none()),
            Err(e) => assert!(!dangling && e.status() == status && e.message() == "why"),
        }
    }
    assert_eq!(ApiError::BadRequest("x".to_owned()).status(), 400);
    let there = Ok(Some(node("a", "fn", "a")));
    assert_eq!(resolve_link(&there).unwrap().unwrap().key, "a");
}

#[test]
fn limits_have_defaults_and_depth_a_ceiling() {
    assert_eq!(given_or(None, DEFAULT_NODE_LIMIT), 100);
    assert_eq!(given_or(Some(3), DEFAULT_NODE_LIMIT), 3);
    assert_eq!(depth_of(None), 1);
    assert_eq!(depth_of(Some(0)), 0);
    assert_eq!(depth_of(Some(3)), 3);
    assert_eq!(depth_of(Some(99)), MAX_DEPTH);
}

// -- following a key ---------------------------------------------------------

fn struct_node() -> Node {
    node(
        "sym:rust:crates/roteiro/src/config.rs#ServeConfig",
        "struct",
        "ServeConfig",
    )
}

#[test]
fn follow_bridges_a_config_key_to_its_defining_struct_field() {
    let r = follow_reply(&Follow::StructField(struct_node(), "addr".to_owned()));
    assert_eq!(r.kind, Some("struct_field"));
    assert!(!r.drift);
    assert_eq!(r.field.as_deref(), Some("addr"));
    let target = r.target.unwrap();
    assert_eq!(
        target.key,
        "sym:rust:crates/roteiro/src/config.rs#ServeConfig"
    );
    assert_eq!(target.kind, "struct");
    assert_eq!(
        followed_project(
            "hub::cfgkey:config.toml#serve.addr",
            &Some("hub".to_owned())
        )
        .unwrap(),
        "hub"
    );
}

#[test]
fn follow_falls_back_to_the_config_key_when_unbridgeable() {
    let ws = linked_workspace();
    let n = ws.follow_key(&at_hub("serve.tools")).unwrap().unwrap();
    let r = follow_reply(&Follow::Node(n));
    assert_eq!(r.kind, Some("config_key"));
    assert!(!r.drift);
    assert_eq!(r.field, None);
    let target = r.target.unwrap();
    assert_eq!(target.key, "cfgkey:config.toml#serve.tools");
    assert_eq!(target.kind, "config_key");
    // Any other node is a definition.
    let r = follow_reply(&Follow::Node(struct_node()));
    assert_eq!(r.kind, Some("struct_field"));
}

#[test]
fn follow_reports_drift_for_an_orphan_target() {
    let r = follow_reply(&Follow::Drift);
    assert!(r.drift);
    assert!(r.target.is_none());
    assert_eq!(r.kind, None);
    assert_eq!(r.field, None);
}

#[test]
fn follow_requires_a_qualified_key() {
    let e = require_qualified(&None).unwrap_err();
    assert_eq!(
        (e.status(), e.message()),
        (400, "missing `qualified` query parameter")
    );
    let e = followed_project("notqualified", &None).unwrap_err();
    assert_eq!(
        (e.status(), e.message()),
        (
            400,
            "`notqualified` is not a project-qualified `<proj>::<key>`"
        )
    );
    assert_eq!(
        require_qualified(&Some("hub::x".to_owned())).unwrap(),
        "hub::x"
    );
}

#[test]
fn resolve_returns_hub_node_for_a_live_key() {
    let ws = linked_workspace();
    let n = resolve_link(&ws.follow_key(&at_hub("serve.addr"))).unwrap();
    assert_eq!(n.unwrap().name, "serve.addr");
}

#[test]
fn resolve_reports_drift_for_an_orphan() {
    let ws = linked_workspace();
    assert!(resolve_link(&ws.follow_key(&at_hub("serve.legacy")))
        .unwrap()
        .is_none());
    // In another workspace the same key may lead nowhere.
    assert!(
        resolve_link(&solo_workspace().follow_key(&at_hub("serve.addr")))
            .unwrap()
            .is_none()
    );
}

#[test]
fn resolve_unqualified_key_is_400() {
    let e = linked_workspace().follow_key("notqualified").unwrap_err();
    assert_eq!(workspace_failure(&e).status(), 400);
}

// -- pages of nodes ----------------------------------------------------------

fn query() -> NodesQuery {
    NodesQuery {
        kinds: None,
        provenance: None,
        q: None,
        limit: None,
        offset: None,
    }
}

#[test]
fn nodes_filter_by_kind_and_page() {
    let nodes = hub_store().nodes;
    let fns = || Some("fn".to_owned());
    let all = project_nodes(
        &nodes,
        &NodesQuery {
            kinds: fns(),
            ..query()
        },
    )
    .unwrap();
    assert_eq!(all.total, 2);
    assert_eq!(all.nodes.len(), 2);
    assert_eq!((all.limit, all.offset), (100, 0));

    let page = project_nodes(
        &nodes,
        &NodesQuery {
            kinds: fns(),
            limit: Some(1),
            offset: Some(1),
            ..query()
        },
    )
    .unwrap();
    assert_eq!(page.total, 2, "total is pre-paging");
    assert_eq!(page.nodes.len(), 1);
    assert_eq!(page.limit, 1);
    assert_eq!(page.offset, 1);
    assert_eq!(page.nodes[0].key, all.nodes[1].key);

    // Past the end there is nothing.
    let past = project_nodes(
        &nodes,
        &NodesQuery {
            offset: Some(usize::MAX),
            limit: Some(usize::MAX),
            ..query()
        },
    )
    .unwrap();
    assert_eq!((past.total, past.nodes.len()), (4, 0));
    assert_eq!(kinds_listed("fn,,struct,"), ["fn", "struct"]);
}

#[test]
fn nodes_query_matches_name_substring() {
    let asking = |q: &str| {
        project_nodes(
            &hub_store().nodes,
            &NodesQuery {
                q: Some(q.to_owned()),
                ..query()
            },
        )
        .unwrap()
    };
    let page = asking("help");
    assert_eq!(page.total, 1);
    assert_eq!(page.nodes[0].name, "helper");
    // In any case, and in the key as well.
    assert_eq!(asking("HELP").total, 1);
    assert_eq!(asking("CFGKEY:").total, 2);
    assert_eq!(asking("nope").total, 0);
}

#[test]
fn a_search_folds_case_beyond_ascii() {
    let nodes = vec![
        node("a", "fn", "GRÖSSE"),
        node("b", "fn", "İstanbul"),
        node("c", "fn", "ΑΣ"),
    ];
    for (q, key) in [("größe".to_uppercase(), "a"), ("i̇stan".to_owned(), "b"), ("ας".to_owned(), "c")] {
        let page = project_nodes(
            &nodes,
            &NodesQuery {
                q: Some(q.clone()),
                ..query()
            },
        )
        .unwrap();
        let expected: Vec<&str> = nodes
            .iter()
            .filter(|n| n.name.to_lowercase().contains(&q.to_lowercase()))
            .map(|n| n.key.as_str())
            .collect();
        let found: Vec<&str> = page.nodes.iter().map(|n| n.key.as_str()).collect();
        assert_eq!(found, expected, "{q}");
        assert_eq!(found, [key], "{q}");
    }
}

#[test]
fn nodes_bad_provenance_is_400() {
    let asking = |p: &str| {
        project_nodes(
            &hub_store().nodes,
            &NodesQuery {
                provenance: Some(p.to_owned()),
                ..query()
            },
        )
    };
    let e = asking("bogus").unwrap_err();
    assert_eq!(
        (e.status(), e.message()),
        (
            400,
            "unknown provenance `bogus` (expected derived|authored|inferred)"
        )
    );
    assert_eq!(asking("derived").unwrap().total, 4);
    assert_eq!(asking("authored").unwrap().total, 0);
    assert_eq!(parse_provenance("inferred").unwrap(), Provenance::Inferred);
}

// -- one node ----------------------------------------------------------------

fn producer(model: &str) -> Producer {
    Producer {
        id: format!("{model}-id"),
        model: model.to_owned(),
        kind: "audio".to_owned(),
        quantisation: "Q4_K_M".to_owned(),
        prompt: "Transcribe this audio recording.".to_owned(),
    }
}

fn record(model: &str, blob: &str, outcome: MediaOutcome) -> MediaRecord {
    MediaRecord {
        producer: producer(model),
        blob_id: blob.to_owned(),
        path: "assets/silence.wav".to_owned(),
        generation: 1,
        produced_at: "2025-01-01T00:00:00Z".to_owned(),
        tool_version: "9.9.9".to_owned(),
        outcome,
    }
}

#[test]
fn node_detail_explains_and_404s_unknown_key() {
    assert!(node_detail(true, &None, &vec![], "sym:main", HUB).is_ok());
    let e = node_detail(false, &None, &vec![], "sym:ghost", HUB).unwrap_err();
    assert_eq!(
        (e.status(), e.message()),
        (404, "no node `sym:ghost` in project `hub`")
    );
}

#[test]
fn node_detail_surfaces_generated_media_attributed_to_its_producer() {
    let blob = Some("blob-silence".to_owned());
    let stored = vec![
        record(
            "voxtral-mini-3b",
            "blob-silence",
            MediaOutcome::Generated("Tonight I want to talk about world government.".to_owned()),
        ),
        record(
            "voxtral-small-24b",
            "blob-silence",
            MediaOutcome::Skipped(MediaSkip {
                reason: "silence".to_owned(),
                metric: "rms".to_owned(),
                value: "0".to_owned(),
                threshold: "0.0001".to_owned(),
                explanation: "below silence threshold (rms=0, threshold 0.0001)".to_owned(),
            }),
        ),
        record(
            "voxtral-mini-3b",
            "blob-other",
            MediaOutcome::Generated("elsewhere".to_owned()),
        ),
    ];
    let records = node_detail(true, &blob, &stored, "file:assets/silence.wav", HUB).unwrap();
    assert_eq!(records.len(), 2, "both producers' records must surface");

    let transcript = records.iter().find(|r| r.text.is_some()).unwrap();
    assert!(transcript.generated, "an unmissable marker");
    assert_eq!(transcript.producer.model, "voxtral-mini-3b");
    assert_eq!(transcript.producer.kind, "audio");
    assert_eq!(transcript.producer.quantisation, "Q4_K_M");
    assert_eq!(transcript.producer.id, "voxtral-mini-3b-id");
    assert!(transcript.skipped.is_none());
    assert_eq!(
        transcript.rebuild,
        "roteiro media build --blob blob-silence --force"
    );
    assert_eq!(rebuild_command("blob-silence"), transcript.rebuild);

    let refusal = records.iter().find(|r| r.skipped.is_some()).unwrap();
    assert!(
        refusal.text.is_none(),
        "a gated skip carries no text to render"
    );
    let skip = refusal.skipped.as_ref().unwrap();
    assert_eq!(skip.reason, "silence");
    assert_eq!(skip.metric, "rms");
    assert_eq!(
        skip.explanation,
        "below silence threshold (rms=0, threshold 0.0001)"
    );
}

#[test]
fn a_node_without_media_reports_an_empty_generated_array() {
    let stored = vec![record("m", "b", MediaOutcome::Generated("t".to_owned()))];
    assert_eq!(
        node_detail(true, &None, &stored, "sym:main", HUB)
            .unwrap()
            .len(),
        0
    );
}

// -- around a node -----------------------------------------------------------

fn by_key(nodes: Vec<Node>) -> NameMap<Node> {
    let mut m = NameMap::new();
    for n in nodes {
        let key = n.key.clone();
        m.insert(&key, n);
    }
    m
}

#[test]
fn neighbourhood_returns_root_and_neighbour() {
    let s = hub_store();
    let g = neighbourhood_subgraph(&by_key(s.nodes), &s.edges, "sym:main", 1).unwrap();
    let keys: Vec<&str> = g.nodes.iter().map(|n| n.key.as_str()).collect();
    assert_eq!(keys, ["sym:main", "sym:helper"], "the root comes first");
    assert_eq!(g.edges.len(), 1);
}

#[test]
fn a_neighbourhood_grows_hop_by_hop() {
    let step = |a: &str, b: &str| edge(a, b, "calls", Provenance::Derived, None);
    // d -> c -> b, and c -> a -> b; e stands apart.
    let edges = vec![
        step("d", "c"),
        step("c", "b"),
        step("c", "a"),
        step("a", "b"),
    ];
    let keys = |root: &str, depth: usize| -> (Vec<String>, usize) {
        let nodes = by_key(
            ["a", "b", "c", "d", "e"]
                .iter()
                .map(|k| node(k, "fn", k))
                .collect(),
        );
        let g = neighbourhood_subgraph(&nodes, &edges, root, depth).unwrap();
        (
            g.nodes.iter().map(|n| n.key.clone()).collect(),
            g.edges.len(),
        )
    };
    assert_eq!(keys("d", 0), (vec!["d".to_owned()], 0));
    assert_eq!(keys("d", 1).0, ["d", "c"]);
    // Edges are walked both ways; one between two nodes on the rim is a hop away.
    assert_eq!(keys("b", 1).0, ["b", "a", "c"]);
    assert_eq!(keys("b", 1).1, 2);
    assert_eq!(keys("b", 2).1, 4);
    assert_eq!(keys("d", 5).0, ["d", "a", "b", "c"]);
    assert_eq!(keys("e", 5).0, ["e"]);
    assert!(neighbourhood_subgraph(&NameMap::new(), &edges, "a", 1).is_none());
}

#[test]
fn hotspots_ranks_by_degree() {
    let s = hub_store();
    let top = compute_hotspots(&s.nodes, &s.edges, 1);
    assert_eq!(top.len(), 1);
    // Both symbols have degree 1; ties break by key.
    assert_eq!(top[0].degree, 1);
    assert_eq!(top[0].key, "sym:helper");

    let all = compute_hotspots(&s.nodes, &s.edges, 20);
    let keys: Vec<&str> = all.iter().map(|h| h.key.as_str()).collect();
    assert_eq!(
        keys,
        [
            "sym:helper",
            "sym:main",
            "cfgkey:config.toml#serve.addr",
            "cfgkey:config.toml#serve.tools"
        ],
        "what no edge touches comes last"
    );
    assert_eq!(all[3].degree, 0);
}

#[test]
fn coupling_endpoint_rejects_an_unknown_order() {
    let known: Vec<String> = ["total", "fan_in", "fan_out"]
        .iter()
        .map(|s| (*s).to_owned())
        .collect();
    let e = unknown_order("degree", &known);
    assert_eq!(
        (e.status(), e.message()),
        (
            400,
            "unknown order `degree` (expected total|fan_in|fan_out)"
        )
    );
}

#[test]
fn density_endpoint_rejects_an_unknown_order() {
    let e = unknown_order("count", &vec!["density".to_owned(), "markers".to_owned()]);
    assert_eq!(
        (e.status(), e.message()),
        (400, "unknown order `count` (expected density|markers)")
    );
}

// -- the workspace's shape ---------------------------------------------------

#[test]
fn topology_shows_hub_spokes_and_links() {
    let t = linked_workspace().topology();
    assert_eq!(t.hub.as_deref(), Some(HUB));
    assert_eq!(t.spokes.len(), 1);
    assert_eq!(t.spokes[0].name, SPOKE);
    assert_eq!(t.spokes[0].label, SPOKE);
    assert_eq!(t.spokes[0].key_count, 2);
    // One live link and one drifted link.
    assert_eq!(t.spokes[0].drift_count, 1);
    assert_eq!(t.links.len(), 2);
    assert_eq!(t.links[0].from, "spoke::cfgkey:deploy.env#SERVE_ADDR");
    assert_eq!(t.links[0].to, "hub::cfgkey:config.toml#serve.addr");
}

#[test]
fn nested_topology_is_scoped_to_the_workspace() {
    let linked = linked_workspace().topology();
    assert_eq!(linked.hub.as_deref(), Some(HUB));
    assert_eq!(linked.spokes.len(), 1);
    // Without links or keys there is no hub.
    assert_eq!(solo_workspace().topology().hub, None);
}

#[test]
fn matrix_pivots_overrides_and_lists_drift() {
    let m = linked_workspace().matrix().unwrap();
    assert_eq!(m.hub, HUB);
    assert_eq!(m.rows.len(), 1);
    assert_eq!(m.rows[0].hub_key, "serve.addr");
    assert!(m.rows[0].cells.get(SPOKE).unwrap().differs);
    assert_eq!(m.drift.len(), 1);
    assert_eq!(m.drift[0].key, "LEGACY_ADDR");
    assert!(solo_workspace().matrix().is_none(), "no hub, no matrix");
}

#[test]
fn matrix_carries_real_per_cell_provenance() {
    let m = with_hub(spoke_mixed_provenance()).matrix().unwrap();
    let row = |key: &str| m.rows.iter().find(|r| r.hub_key == key).unwrap();
    let addr = row("serve.addr").cells.get(SPOKE).unwrap();
    assert_eq!(addr.provenance.as_str(), "inferred");
    assert_eq!(f64::from_bits(addr.confidence.bits), 0.9);
    let tools = row("serve.tools").cells.get(SPOKE).unwrap();
    assert_eq!(tools.provenance.as_str(), "authored");
    // An authored link carries no confidence.
    assert_eq!(f64::from_bits(tools.confidence.bits), 0.0);
    assert_eq!(tools.confidence.shown, "0.00");
}

#[test]
fn topology_links_report_real_provenance() {
    let t = with_hub(spoke_mixed_provenance()).topology();
    let provs: Vec<&str> = t.links.iter().map(|l| l.provenance).collect();
    assert!(provs.contains(&"authored"), "got provenances: {provs:?}");
    assert!(provs.contains(&"inferred"), "got provenances: {provs:?}");
}

#[test]
fn topology_hub_is_always_a_hosted_project() {
    let t = with_hub(spoke_linking_unhosted(2, true)).topology();
    assert_eq!(
        t.hub.as_deref(),
        Some(HUB),
        "hub is the hosted project, not `ghost`"
    );
}

#[test]
fn topology_unhosted_link_is_drift_not_404() {
    let t = with_hub(spoke_linking_unhosted(2, false)).topology();
    assert_eq!(t.hub, None, "no hosted project is referenced");
    assert_eq!(t.spokes.len(), 1);
    assert_eq!(t.spokes[0].drift_count, 2, "both unhosted links are drift");
    assert_eq!(t.links.len(), 2);
}

#[test]
fn topology_infers_cross_repo_links_live_without_persisted_edges() {
    let t = inferable_workspace().topology();
    assert_eq!(
        t.hub.as_deref(),
        Some(HUB),
        "the config-key-rich repo is the inferred hub"
    );
    assert_eq!(t.spokes.len(), 1);
    assert_eq!(t.spokes[0].name, SPOKE);
    assert_eq!(t.links.len(), 2, "both matching keys infer a link");
    assert!(t.links.iter().all(|l| l.provenance == "inferred"));
    assert_eq!(t.spokes[0].drift_count, 1, "the unmatched key is live drift");
}

#[test]
fn matrix_infers_overrides_and_drift_live_without_persisted_edges() {
    let m = inferable_workspace().matrix().unwrap();
    assert_eq!(m.hub, HUB);
    assert_eq!(m.rows.len(), 2);
    let addr = m.rows.iter().find(|r| r.hub_key == "serve.addr").unwrap();
    assert_eq!(
        addr.cells.get(SPOKE).unwrap().provenance.as_str(),
        "inferred",
        "a live correspondence is inferred, not authored"
    );
    assert_eq!(m.drift.len(), 1);
    assert_eq!(m.drift[0].key, "EXTRA_FLAG");
}

#[test]
fn matrix_rows_carry_the_hub_source_file_for_tooling_classification() {
    let hub = Store::new()
        .with_key("config.toml", "serve.addr", "127.0.0.1:8017")
        .with_key("Cargo.toml", "package.name", "roteiro");
    let spoke = Store::new()
        .with_key("deploy.env", "SERVE_ADDR", "0.0.0.0:8443")
        .with_key("deploy.env", "PACKAGE_NAME", "deploy")
        .inferred("SERVE_ADDR", "hub::cfgkey:config.toml#serve.addr", 0.9)
        .inferred("PACKAGE_NAME", "hub::cfgkey:Cargo.toml#package.name", 0.9);
    let m = Workspace(vec![(HUB, hub), (SPOKE, spoke)]).matrix().unwrap();
    assert_eq!(m.hub, HUB);
    let row = |key: &str| m.rows.iter().find(|r| r.hub_key == key).unwrap();
    assert_eq!(row("serve.addr").file, "config.toml");
    assert_eq!(row("package.name").file, "Cargo.toml");
}

#[test]
fn topology_merges_persisted_authored_with_live_inferred() {
    let spoke = infer_spoke_store().authored("SERVE_TOOLS", &at_hub("serve.tools"));
    let t = with_hub(spoke).topology();
    assert_eq!(t.hub.as_deref(), Some(HUB));
    let provs: std::collections::BTreeSet<&str> = t.links.iter().map(|l| l.provenance).collect();
    assert_eq!(
        provs,
        ["authored", "inferred"].into_iter().collect(),
        "the authored link and the live-inferred one both render"
    );
    assert_eq!(
        t.spokes[0].drift_count, 1,
        "the two matched keys resolve; the orphan drifts"
    );
}

#[test]
fn write_links_persists_inferred_edges_and_is_idempotent() {
    let ws = inferable_workspace();
    let hub = ws.hub();
    assert_eq!(hub.as_deref(), Some(HUB));
    let keys = || ws.store(HUB).spellings();
    let first = write_plan(&hub, &keys(), &ws.projects(), "links");
    assert_eq!(first.len(), 1, "every project but the hub");
    assert_eq!(first[0].name, SPOKE);
    assert_eq!(first[0].matches, 2, "both matching keys persist an edge");
    let reply = write_reply(&hub, &first, &vec![2]);
    assert_eq!(reply.hub.as_deref(), Some(HUB));
    assert_eq!(reply.written, 2);
    assert_eq!(reply.spokes.len(), 1);
    assert_eq!(reply.spokes[0].name, SPOKE);
    assert_eq!((reply.spokes[0].matches, reply.spokes[0].written), (2, 2));
    assert_eq!(reply.note, None);

    // Again, with the links in place: the same hub and the same facts, so
    // applying them as one layer adds nothing.
    let mut projects = ws.projects();
    for p in projects.iter_mut().filter(|p| p.name == SPOKE) {
        p.links = spoke_correspondence(&p, &hub, &keys()).refs;
        assert_eq!(p.links.len(), 2);
    }
    assert_eq!(effective_hub(&projects), hub);
    let again = write_plan(&hub, &keys(), &projects, "links");
    let texts = |p: &SpokePlan| format!("{} {} {:?}", p.name, p.matches, p.facts);
    assert_eq!(again.len(), 1);
    assert_eq!(texts(&first[0]), texts(&again[0]));
    assert_eq!(first[0].facts.nodes.len(), 2);

    // Written, the links render as inferred; the orphan still drifts.
    let mut spoke = infer_spoke_store();
    for (n, e) in again[0].facts.nodes.iter().zip(&again[0].facts.edges) {
        spoke = spoke
            .with_node(node(&n.key, "external_ref", &n.qualified))
            .with_edge(e.clone());
    }
    let t = Workspace(vec![(HUB, infer_hub_store()), (SPOKE, spoke)]).topology();
    assert_eq!(t.links.len(), 2);
    assert_eq!(t.spokes[0].drift_count, 1);
}

#[test]
fn without_a_hub_nothing_is_written() {
    assert_eq!(solo_workspace().hub(), None);
    assert_eq!(NOTHING_TO_INFER, "no cross-repo hub — nothing to infer");
    let plans = write_plan(&None, &vec![], &solo_workspace().projects(), "links");
    assert!(plans.is_empty());
    let reply = write_reply(&None, &plans, &vec![]);
    assert_eq!(reply.hub, None);
    assert_eq!(reply.written, 0);
    assert!(reply.spokes.is_empty());
    assert_eq!(reply.note, Some(NOTHING_TO_INFER));
    assert_eq!(total_written(&vec![]), 0);
    assert_eq!(total_written(&vec![usize::MAX, 1]), usize::MAX as u128 + 1);
}

// -- the links of one project ------------------------------------------------

#[test]
fn project_links_annotate_provenance_and_drift() {
    let links = with_hub(spoke_authored_inferred_drift()).links(SPOKE);
    assert_eq!(links.len(), 3, "all three links are reported");
    let by = |name: &str| links.iter().find(|l| l.from_name == name).unwrap();

    let inferred = by("SERVE_ADDR");
    assert_eq!(inferred.provenance, "inferred");
    assert!(!inferred.drift);
    assert_eq!(inferred.to_qualified, "hub::cfgkey:config.toml#serve.addr");
    assert_eq!(inferred.to_name.as_deref(), Some("serve.addr"));
    assert_eq!(
        inferred.confidence.as_ref().map(|c| f64::from_bits(c.bits)),
        Some(0.9)
    );

    let authored = by("SERVE_TOOLS");
    assert_eq!(authored.provenance, "authored");
    assert!(!authored.drift);
    assert_eq!(authored.to_name.as_deref(), Some("serve.tools"));
    assert!(authored.confidence.is_none());

    let drift = by("LEGACY_ADDR");
    assert!(drift.drift);
    assert_eq!(drift.to_name, None);
    assert_eq!(drift.to_qualified, "hub::cfgkey:config.toml#serve.legacy");
}

#[test]
fn project_links_are_empty_for_a_non_spoke() {
    assert_eq!(linked_workspace().links(HUB).len(), 0);
}

#[test]
fn project_links_are_scoped_to_the_named_workspace() {
    let links = linked_workspace().links(SPOKE);
    assert_eq!(links.len(), 2);
    let drift_count = links.iter().filter(|l| l.drift).count();
    assert_eq!(drift_count, 1, "one link drifts, one resolves");
}

#[test]
fn project_links_report_multiple_links_into_one_target_distinctly() {
    let links = with_hub(spoke_shared_target_and_drift()).links(SPOKE);
    assert_eq!(
        links.len(),
        3,
        "two links into the shared target + one drift"
    );
    let into_addr: Vec<_> = links
        .iter()
        .filter(|l| l.to_qualified == "hub::cfgkey:config.toml#serve.addr")
        .collect();
    assert_eq!(
        into_addr.len(),
        2,
        "both links into the one target are reported"
    );
    let froms: std::collections::BTreeSet<&str> =
        into_addr.iter().map(|l| l.from_name.as_str()).collect();
    assert_eq!(
        froms,
        ["PROXY_ADDR", "SERVE_ADDR"].into_iter().collect(),
        "each link keeps its own source config key"
    );
    let provs: std::collections::BTreeSet<&str> =
        into_addr.iter().map(|l| l.provenance).collect();
    assert_eq!(
        provs,
        ["authored", "inferred"].into_iter().collect(),
        "each edge into the shared target keeps its own provenance"
    );
    assert!(into_addr.iter().all(|l| !l.drift));
    assert!(
        into_addr
            .iter()
            .all(|l| l.to == "extref:hub::cfgkey:config.toml#serve.addr"),
        "both links share the one external-ref node"
    );
    let drift = links.iter().find(|l| l.from_name == "LEGACY_ADDR").unwrap();
    assert!(drift.drift);
    assert_eq!(drift.to_name, None);
}

#[test]
fn a_failure_that_is_no_drift_fails_the_view() {
    let ws = linked_workspace();
    let refs = vec![
        FollowedLink {
            link: external_refs(&ws.store(SPOKE).referenced()).remove(0),
            followed: Err(failing(WorkspaceFault::UnknownProject)),
        },
        FollowedLink {
            link: external_refs(&ws.store(SPOKE).referenced()).remove(0),
            followed: Err(failing(WorkspaceFault::Other)),
        },
    ];
    let e = match project_links(&vec![], &refs) {
        Err(e) => e,
        Ok(_) => panic!("a broken store is no drift"),
    };
    assert_eq!((e.status(), e.message()), (500, "why"));

    let spokes = vec![SpokeView {
        name: SPOKE.to_owned(),
        keys: vec![],
        refs,
        orphans: vec![],
    }];
    assert!(topology(&Some(HUB.to_owned()), &spokes).is_err());
    assert!(matrix(&Some(HUB.to_owned()), &vec![], &spokes).is_err());
    assert!(matches!(matrix(&None, &vec![], &spokes), Ok(None)));
}

// -- the hub -----------------------------------------------------------------

#[test]
fn the_most_linked_hosted_project_is_the_hub() {
    let ws = linked_workspace();
    assert_eq!(determine_hub(&ws.projects()).as_deref(), Some(HUB));
    assert!(workspace_has_external_refs(&ws.projects()));
    let inferable = inferable_workspace();
    assert_eq!(determine_hub(&inferable.projects()), None);
    assert!(!workspace_has_external_refs(&inferable.projects()));
    // Two repos tie on the number of keys: the name that comes first.
    assert_eq!(
        config_key_count_hub(&inferable.projects()).as_deref(),
        Some(HUB)
    );
    // One repo with keys has nobody to be a hub for.
    let lone = Workspace(vec![(HUB, infer_hub_store())]);
    assert_eq!(config_key_count_hub(&lone.projects()), None);
}

#[test]
fn keys_and_files_come_back() {
    assert_eq!(cfgkey_file("cfgkey:config.toml#serve.addr"), "config.toml");
    assert_eq!(cfgkey_file("cfgkey:config.toml"), "config.toml");
    assert_eq!(cfgkey_file("sym:main"), "");
    let key = |k: &str, v: &str| ConfigKey {
        file: "f".to_owned(),
        key: k.to_owned(),
        value: v.to_owned(),
    };
    let m = config_values(&vec![key("a", "1"), key("b", "2"), key("a", "3")]);
    assert_eq!(m.get("a").map(String::as_str), Some("3"));
    assert_eq!(m.get("b").map(String::as_str), Some("2"));
    assert_eq!(m.len(), 2);
}
