use roteiro::diff::GitRun;
use roteiro::graph::{Node, NodeClass, Provenance, Score};
use roteiro::names::NameMap;
use roteiro::review::score::{score_text, ClassScore, Miss, ScoreReport};
use roteiro::review::{
    build, changed_keys, file_review, symbol_review, violation_touches, ChangeStatus, ChangedFile,
    ContextEdge, DiffSource, NodeContext, Snapshot, Violation, REVIEW_SCHEMA,
};

fn owned(items: &[&str]) -> Vec<String> {
    items.iter().map(|s| (*s).to_owned()).collect()
}

fn node(key: &str, name: &str, class: NodeClass, path: Option<&str>) -> Node {
    Node {
        key: key.to_owned(),
        name: name.to_owned(),
        kind: "function".to_owned(),
        class,
        provenance: Provenance::Derived,
        path: path.map(str::to_owned),
    }
}

fn edge(node: &str, kind: &str, provenance: &str, confidence: Option<f64>) -> ContextEdge {
    ContextEdge {
        node: node.to_owned(),
        kind: kind.to_owned(),
        provenance: provenance.to_owned(),
        confidence: confidence.map(|c| Score {
            bits: c.to_bits(),
            shown: format!("{c:.2}"),
        }),
    }
}

fn changed(path: &str, status: ChangeStatus, nodes: Vec<Node>) -> ChangedFile {
    ChangedFile {
        path: path.to_owned(),
        status,
        nodes,
        diff: Some(format!("diff of {path}")),
    }
}

fn snapshot(nodes: Vec<Node>, contexts: Vec<(&str, NodeContext)>) -> Snapshot {
    let mut n = NameMap::new();
    for x in nodes {
        let key = x.key.clone();
        n.insert(&key, x);
    }
    let mut c = NameMap::new();
    for (k, x) in contexts {
        c.insert(k, x);
    }
    Snapshot {
        nodes: n,
        contexts: c,
    }
}

fn run(code: Option<i32>, stdout: &str, quiet: bool) -> Option<GitRun> {
    Some(GitRun {
        code,
        stdout: stdout.to_owned(),
        quiet,
    })
}

#[test]
fn json_schema_tags_are_frozen() {
    assert_eq!(REVIEW_SCHEMA, "roteiro.review/v1");
}

#[test]
fn statuses_have_their_tokens() {
    assert_eq!(ChangeStatus::Added.as_str(), "added");
    assert_eq!(ChangeStatus::Modified.as_str(), "modified");
    assert_eq!(ChangeStatus::Deleted.as_str(), "deleted");
}

#[test]
fn a_range_is_asked_for_and_an_untracked_file_is_asked_for_again() {
    let worktree = DiffSource { base: None };
    let ranged = DiffSource {
        base: Some("main".to_owned()),
    };
    assert_eq!(worktree.range(), ["HEAD"]);
    assert_eq!(ranged.range(), ["main", "HEAD"]);

    let nothing = run(Some(0), "", true);
    let text = run(Some(0), "@@ -1 +1 @@\n", true);
    let fresh = run(Some(1), "+new\n", true);
    // Only an added file that the range says nothing of is asked for again, and
    // only in the working tree.
    assert!(worktree.needs_untracked(ChangeStatus::Added, &nothing));
    assert!(!worktree.needs_untracked(ChangeStatus::Added, &text));
    assert!(!worktree.needs_untracked(ChangeStatus::Modified, &nothing));
    assert!(!ranged.needs_untracked(ChangeStatus::Added, &nothing));

    assert_eq!(
        worktree.for_file(ChangeStatus::Added, &nothing, &fresh),
        Some("+new".to_owned())
    );
    assert_eq!(
        worktree.for_file(ChangeStatus::Modified, &text, &fresh),
        Some("@@ -1 +1 @@".to_owned())
    );
    assert_eq!(
        ranged.for_file(ChangeStatus::Added, &nothing, &fresh),
        Some(String::new())
    );
    assert_eq!(
        ranged.for_file(ChangeStatus::Deleted, &run(Some(128), "", false), &None),
        None
    );
}

#[test]
fn a_symbol_is_shown_with_what_surrounds_it() {
    let n = node("fn:a", "a", NodeClass::Other, Some("src/a.rs"));
    let ctx = NodeContext {
        incoming: vec![
            edge("fn:caller", "calls", "derived", None),
            edge("adr:1", "governs", "authored", None),
            edge("fn:like", "related", "inferred", Some(0.8)),
            edge("fn:other", "references", "inferred", Some(0.5)),
        ],
        outgoing: vec![
            edge("fn:callee", "calls", "derived", None),
            edge("adr:2", "implements", "authored", None),
            edge("fn:too", "related", "inferred", Some(0.7)),
        ],
    };
    let r = symbol_review(&n, Some(&ctx));
    assert_eq!(r.key, "fn:a");
    assert_eq!(r.name, "a");
    assert_eq!(r.kind, "function");
    assert_eq!(r.callers, ["fn:caller"]);
    assert_eq!(r.callees, ["fn:callee"]);
    assert_eq!(r.governed_by, ["adr:1"], "what governs it points at it");
    let related: Vec<&str> = r.related.iter().map(|x| x.node.as_str()).collect();
    assert_eq!(related, ["fn:like", "fn:too"], "similar in either direction");
    assert_eq!(
        r.related[0].confidence.as_ref().map(|c| c.shown.as_str()),
        Some("0.80")
    );

    let bare = symbol_review(&n, None);
    assert!(bare.callers.is_empty() && bare.related.is_empty());
}

#[test]
fn a_file_lists_its_symbols_and_the_markers_that_count() {
    let nodes = || {
        vec![
            node("file:a", "a.rs", NodeClass::File, Some("a.rs")),
            node("fn:a", "a", NodeClass::Other, Some("a.rs")),
            node("todo:1", "tidy this", NodeClass::Marker, Some("a.rs")),
            node("todo:2", "ignored", NodeClass::Marker, Some("a.rs")),
        ]
    };
    let store = snapshot(nodes(), vec![]);
    let r = file_review(
        &changed("a.rs", ChangeStatus::Modified, nodes()),
        &store,
        &owned(&["todo:1"]),
    );
    assert_eq!(r.path, "a.rs");
    assert_eq!(r.status, "modified");
    assert_eq!(r.symbols.len(), 1);
    assert_eq!(r.symbols[0].key, "fn:a");
    assert_eq!(r.debt, ["tidy this"]);
    assert_eq!(r.diff.as_deref(), Some("diff of a.rs"));

    // Of a deleted file nothing is looked at.
    let gone = file_review(
        &changed("a.rs", ChangeStatus::Deleted, nodes()),
        &store,
        &owned(&["todo:1"]),
    );
    assert!(gone.symbols.is_empty() && gone.debt.is_empty());
}

#[test]
fn a_violation_touches_the_change_by_path_or_by_node() {
    let store = snapshot(
        vec![
            node("fn:a", "a", NodeClass::Other, Some("src/a.rs")),
            node("fn:b", "b", NodeClass::Other, Some("src/b.rs")),
            node("adr:1", "x", NodeClass::Other, None),
        ],
        vec![],
    );
    let paths = owned(&["src/a.rs"]);
    assert!(violation_touches("see src/a.rs", &store, &paths));
    assert!(violation_touches("fn:a: has no owner", &store, &paths));
    assert!(!violation_touches("fn:b: has no owner", &store, &paths));
    assert!(!violation_touches("adr:1: stale", &store, &paths));
    assert!(!violation_touches("fn:a has no colon", &store, &paths));
    assert!(!violation_touches("fn:a: x", &store, &Vec::new()));
}

#[test]
fn a_message_names_a_path_only_where_it_stands_whole() {
    let store = snapshot(vec![], vec![]);
    let touches = |message: &str| violation_touches(message, &store, &owned(&["lib.rs"]));
    assert!(!touches("mylib.rs: bad link"));
    assert!(!touches("src/lib.rs: bad link"));
    assert!(!touches("lib.rs.bak is stale"));
    assert!(!touches("lib.rs/mod is stale"));
    assert!(!touches("bad link in élib.rs"));
    assert!(touches("lib.rs: bad link"));
    assert!(touches("`lib.rs` has a bad link"));
    assert!(touches("sym:rust:lib.rs#main: bad link"));
    assert!(touches("bad link (lib.rs)"));
    assert!(touches("bad link in lib.rs."));
    assert!(touches("bad link in lib.rs... again"));
    assert!(touches("mylib.rs and lib.rs: bad links"));
    assert!(touches("lib.rs"));
    assert!(!touches(""));
    // The current directory leads nowhere else; its parent does.
    assert!(touches("./lib.rs: bad link"));
    assert!(touches("see ././lib.rs"));
    assert!(!touches("../lib.rs: bad link"));
    assert!(!touches("src/./lib.rs: bad link"));
    // An absolute path, or one from home, may be that of the changed file.
    assert!(touches("/lib.rs: bad link"));
    assert!(touches("see /home/alice/repo/lib.rs"));
    assert!(!touches("see /home/alice/repo/mylib.rs"));
    assert!(touches("see ~/repo/lib.rs"));
    assert!(!touches("see ~alice/repo/lib.rs"));
    // Punctuation of any script ends a path; letters do not.
    assert!(touches("lib.rs。"));
    assert!(touches("「lib.rs」、bad"));
    assert!(touches("（lib.rs）"));
    assert!(touches("«lib.rs»"));
    assert!(!touches("lib.rs々"));
    assert!(!touches("漢lib.rs"));
}

#[test]
fn the_whole_change_is_reviewed() {
    let a = || node("fn:a", "a", NodeClass::Other, Some("a.rs"));
    let store = snapshot(
        vec![
            a(),
            node("fn:a2", "a2", NodeClass::Other, Some("a.rs")),
            node("fn:b", "b", NodeClass::Other, Some("b.rs")),
        ],
        vec![],
    );
    let files = vec![
        changed("a.rs", ChangeStatus::Modified, vec![a()]),
        changed("z.rs", ChangeStatus::Deleted, vec![]),
    ];
    assert_eq!(changed_keys(&files), ["fn:a"]);
    let violations = vec![
        Violation {
            kind: "drift".to_owned(),
            message: "fn:a: undocumented".to_owned(),
        },
        Violation {
            kind: "drift".to_owned(),
            message: "fn:b: undocumented".to_owned(),
        },
    ];
    let r = build(
        &store,
        &files,
        &violations,
        &Vec::new(),
        &owned(&["fn:a", "fn:a2", "fn:b", "fn:gone"]),
        &Some("main".to_owned()),
    );
    assert_eq!(r.schema, "roteiro.review/v1");
    assert_eq!(r.base.as_deref(), Some("main"));
    assert_eq!(r.changed_files, 2);
    assert_eq!(r.files.len(), 2);
    assert!(r.has_drift());
    assert_eq!(r.drift.len(), 1);
    assert_eq!(r.drift[0].message, "fn:a: undocumented");
    // What the change itself holds is not its impact, nor is what is not there.
    assert_eq!(r.impacted.len(), 1);
    assert_eq!(r.impacted[0].key, "fn:b");

    let quiet = build(&store, &files, &Vec::new(), &Vec::new(), &Vec::new(), &None);
    assert!(!quiet.has_drift());
}

fn class(name: &str, real: usize, found: usize, recall: Option<&str>) -> ClassScore {
    ClassScore {
        class: name.to_owned(),
        real,
        found,
        misclassified: 0,
        recall: recall.map(str::to_owned),
        missed: vec![],
    }
}

fn report() -> ScoreReport {
    ScoreReport {
        attempted_shas: 3,
        corpus_shas: 12,
        per_class: vec![
            class("resource-leak", 10, 4, Some("40")),
            ClassScore {
                misclassified: 1,
                missed: vec![Miss {
                    path: "src/a.rs".to_owned(),
                    line: 7,
                    description: "the handle stays open".to_owned(),
                    comment_url: "https://example.org/1".to_owned(),
                }],
                ..class("cleanup-gap", 1, 0, Some("0"))
            },
            class("unused", 0, 0, None),
        ],
        found: 4,
        real_in_scope: 11,
        known_false_reproduced: 1,
        known_false_in_scope: 5,
        expected_by_position: Some("0.5".to_owned()),
        precision: Some("80".to_owned()),
        unadjudicated: 6,
        verdicts: 2,
        verdicts_contradicted: 1,
        verdicts_unadjudicated: 1,
        suppressed_real: 0,
        suppressed_known_false: 1,
        suppressed_unadjudicated: 0,
        caveats: owned(&["small sample"]),
    }
}

#[test]
fn a_score_is_written_out_in_full() {
    let text = score_text(&report());
    for line in [
        "    40%   4/10  resource-leak\n",
        "     0%   0/1   cleanup-gap  (n=1)\n",
        "          1 found but labelled as another class\n",
        "          miss src/a.rs:7 — the handle stays open\n",
        "               https://example.org/1\n",
        "\n4/11 real defect(s) found; 1/5 known-false claim(s) reproduced\n",
        "  chance baseline: ~0.5 would match by position alone",
        "precision over adjudicated findings only: 80% (6 unadjudicated finding(s) excluded — see below)\n",
        "\n2 whole-change verdict(s) — a model's opinion, gating nothing:\n",
        "  1 declared a change CLEAN that the corpus knows carries a real defect\n",
        "  1 the corpus cannot judge (every `concerns` verdict, and `clean` on a commit with no real row)\n",
        "suppression filter withheld: 0 real, 1 known-false, 0 unadjudicated\n",
        "\nread these numbers with:\n  - small sample\n",
    ] {
        assert!(text.contains(line), "{line:?} in {text}");
    }
    assert!(!text.contains("unused"), "a class without real rows is left out");
}

#[test]
fn what_a_score_lacks_is_said_or_left_out() {
    let bare = ScoreReport {
        per_class: vec![class("resource-leak", 2, 0, None)],
        expected_by_position: None,
        precision: None,
        verdicts: 0,
        suppressed_known_false: 0,
        caveats: vec![],
        ..report()
    };
    let text = score_text(&bare);
    assert!(text.contains("     —   0/2   resource-leak\n"), "{text}");
    assert!(
        text.contains(
            "precision: not computable — no finding matched an adjudicated row (6 unadjudicated)\n"
        ),
        "{text}"
    );
    for absent in ["chance baseline", "verdict", "suppression", "read these", "(n=1)"] {
        assert!(!text.contains(absent), "{absent} in {text}");
    }
}
