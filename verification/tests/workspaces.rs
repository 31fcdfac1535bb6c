use roteiro::config::workspaces::{dedupe_workspace_name, ResolvedWorkspace};
use roteiro::config::{Build, Config, NamedWorkspace, WorkspaceConfig};

/// A build that can do everything.
const FULL: Build = Build {
    remote: true,
    lint: true,
};

fn owned(items: &[&str]) -> Vec<String> {
    items.iter().map(|s| (*s).to_owned()).collect()
}

fn some(items: &[&str]) -> Option<Vec<String>> {
    Some(owned(items))
}

fn none() -> Vec<Vec<String>> {
    Vec::new()
}

fn listed(items: &[&str]) -> Option<Vec<String>> {
    if items.is_empty() {
        None
    } else {
        Some(owned(items))
    }
}

/// A `[[workspaces]]` entry with `roots`/`repos` and nothing else.
fn ws(name: &str, roots: &[&str], repos: &[&str]) -> NamedWorkspace {
    NamedWorkspace {
        name: name.to_owned(),
        roots: listed(roots),
        repos: listed(repos),
        includes: None,
    }
}

/// The same, composed: `includes` on top of its own declarations.
fn composed(name: &str, includes: &[&str], roots: &[&str], repos: &[&str]) -> NamedWorkspace {
    NamedWorkspace {
        includes: some(includes),
        ..ws(name, roots, repos)
    }
}

/// One resolved group's member lists.
fn members(resolved: &[ResolvedWorkspace], name: &str) -> (Vec<String>, Vec<String>) {
    let g = resolved
        .iter()
        .find(|r| r.name == name)
        .unwrap_or_else(|| panic!("no resolved workspace `{name}` in {resolved:?}"));
    (g.roots.clone(), g.repos.clone())
}

fn resolve(cfg: &Config) -> Vec<ResolvedWorkspace> {
    cfg.resolved_workspaces(&None, &none()).expect("resolve")
}

fn refusal(cfg: &Config) -> String {
    cfg.resolved_workspaces(&None, &none())
        .expect_err("must be refused")
        .message()
}

fn names(resolved: &[ResolvedWorkspace]) -> Vec<&str> {
    resolved.iter().map(|r| r.name.as_str()).collect()
}

#[test]
fn legacy_workspace_only_resolves_to_one_default_linked_group() {
    let cfg = Config {
        workspace: WorkspaceConfig {
            roots: some(&["/code"]),
            repos: some(&["/code/extra"]),
        },
        ..Default::default()
    };
    let resolved = resolve(&cfg);
    assert_eq!(resolved.len(), 1);
    let d = &resolved[0];
    assert_eq!(d.name, "default");
    assert!(d.linked);
    assert_eq!(d.roots, owned(&["/code"]));
    assert_eq!(d.repos, owned(&["/code/extra"]));

    // A config naming no workspaces at all yields no groups.
    assert!(resolve(&Config::default()).is_empty());

    // A user-layer `[workspace]` still survives an empty project overlay.
    let user = Config {
        workspace: WorkspaceConfig {
            roots: some(&["/code"]),
            repos: None,
        },
        ..Default::default()
    };
    let merged = user.overlaid_with(&Config::default(), FULL);
    assert_eq!(merged.workspace.roots, some(&["/code"]));
    assert!(merged.workspaces.is_empty());
    assert!(merged.standalone.is_empty());
}

#[test]
fn named_workspaces_and_standalone_partition_correctly() {
    let cfg = Config {
        workspace: WorkspaceConfig {
            roots: some(&["/legacy"]),
            repos: None,
        },
        workspaces: vec![ws("api", &["/api"], &[]), ws("web", &[], &["/web/app"])],
        standalone: WorkspaceConfig {
            roots: some(&["/base/solo"]),
            repos: None,
        },
        ..Default::default()
    };
    assert_eq!(cfg.standalone_roots(&None), owned(&["/base/solo"]));
    let found = vec![owned(&["/base/solo/docs", "/base/solo/tools"])];
    let resolved = cfg.resolved_workspaces(&None, &found).expect("resolve");

    // Legacy `[workspace]` folds in as `default` first, then the named linked
    // groups, then the standalone singletons.
    assert_eq!(
        names(&resolved),
        vec!["default", "api", "web", "docs", "tools"]
    );
    let by_name = |n: &str| resolved.iter().find(|r| r.name == n).expect("group");
    assert!(by_name("default").linked);
    assert!(by_name("api").linked);
    assert!(by_name("web").linked);

    let docs = by_name("docs");
    assert!(!docs.linked, "standalone repos are unlinked");
    assert!(docs.roots.is_empty());
    assert_eq!(docs.repos.len(), 1, "a standalone group is a singleton");
    assert!(docs.repos[0].ends_with("docs"));
    assert!(!by_name("tools").linked);
}

#[test]
fn standalone_names_dedupe_against_linked_names() {
    let cfg = Config {
        workspace: WorkspaceConfig {
            roots: some(&["/legacy"]),
            repos: None,
        },
        standalone: WorkspaceConfig {
            roots: None,
            repos: some(&["/base/default"]),
        },
        ..Default::default()
    };
    let resolved = resolve(&cfg);
    assert_eq!(names(&resolved), vec!["default", "default-2"]);
    // The linked `default` keeps its slot; the standalone takes `default-2`.
    assert!(resolved[0].linked);
    assert!(!resolved[1].linked);
}

#[test]
fn multi_workspace_fields_parse_and_overlay() {
    let user = Config {
        workspaces: vec![ws("api", &["/api"], &[])],
        standalone: WorkspaceConfig {
            roots: None,
            repos: some(&["/solo/x"]),
        },
        ..Default::default()
    };
    assert_eq!(user.workspaces.len(), 1);
    assert_eq!(user.workspaces[0].name, "api");
    assert_eq!(user.standalone.repos, some(&["/solo/x"]));

    let project = Config {
        workspaces: vec![ws("web", &[], &[])],
        ..Default::default()
    };
    let merged = user.overlaid_with(&project, FULL);
    // `[[workspaces]]` from the project layer wins outright.
    assert_eq!(merged.workspaces.len(), 1);
    assert_eq!(merged.workspaces[0].name, "web");
    // `[standalone]` unset in the project layer ⇒ the user layer's survives.
    assert_eq!(merged.standalone.repos, some(&["/solo/x"]));
}

#[test]
fn the_adr_example_parses_and_composes() {
    let cfg = Config {
        workspaces: vec![
            ws("backend", &[], &["~/git/api", "~/git/worker"]),
            ws("frontend", &[], &["~/git/web"]),
            composed(
                "platform",
                &["backend", "frontend"],
                &[],
                &["~/git/shared-infra"],
            ),
        ],
        ..Default::default()
    };
    assert_eq!(
        cfg.workspaces[2].includes,
        some(&["backend", "frontend"])
    );
    assert_eq!(
        cfg.workspaces[0].includes, None,
        "an entry that declares no `includes` is unset"
    );
    let home = Some("/home/alice".to_owned());
    let resolved = cfg.resolved_workspaces(&home, &none()).expect("resolve");
    assert_eq!(
        members(&resolved, "platform").1,
        owned(&[
            "/home/alice/git/shared-infra",
            "/home/alice/git/api",
            "/home/alice/git/worker",
            "/home/alice/git/web",
        ]),
    );
}

#[test]
fn a_fault_is_found_whatever_a_scan_finds() {
    let cfg = Config {
        workspaces: vec![ws("api", &["/a"], &[]), ws("api", &["/b"], &[])],
        standalone: WorkspaceConfig {
            roots: some(&["/solo"]),
            repos: None,
        },
        ..Default::default()
    };
    let text = |found: &Vec<Vec<String>>| {
        cfg.resolved_workspaces(&None, found)
            .expect_err("a duplicate")
            .message()
    };
    assert_eq!(text(&none()), text(&vec![owned(&["/solo/x", "/solo/y"])]));
    assert!(text(&none()).contains("duplicate workspace name `api`"));
}

#[test]
fn duplicate_linked_workspace_names_are_a_config_error() {
    // Two `[[workspaces]]` sharing a name → error.
    let cfg = Config {
        workspaces: vec![ws("api", &["/a"], &[]), ws("api", &["/b"], &[])],
        ..Default::default()
    };
    let err = refusal(&cfg);
    assert!(
        err.contains("duplicate workspace name") && err.contains("api"),
        "{err}"
    );

    // A `[[workspaces]]` named `default` collides with the legacy `[workspace]`.
    let cfg = Config {
        workspace: WorkspaceConfig {
            roots: some(&["/legacy"]),
            repos: None,
        },
        workspaces: vec![ws("default", &["/x"], &[])],
        ..Default::default()
    };
    let err = refusal(&cfg);
    assert!(err.contains("default"), "{err}");
}

#[test]
fn config_without_includes_resolves_exactly_as_before() {
    let cfg = Config {
        workspace: WorkspaceConfig {
            roots: some(&["/legacy/root"]),
            repos: some(&["/legacy/repo"]),
        },
        workspaces: vec![
            ws("api", &["/api/root"], &["/api/one", "/api/two"]),
            // A repo listed twice in one entry, and a repo also named by another
            // workspace: neither is de-duplicated.
            ws("web", &[], &["/web/app", "/web/app", "/api/one"]),
        ],
        ..Default::default()
    };
    let resolved = resolve(&cfg);
    assert_eq!(names(&resolved), vec!["default", "api", "web"]);
    assert!(resolved.iter().all(|r| r.linked));
    assert_eq!(
        members(&resolved, "default"),
        (owned(&["/legacy/root"]), owned(&["/legacy/repo"]))
    );
    assert_eq!(
        members(&resolved, "api"),
        (owned(&["/api/root"]), owned(&["/api/one", "/api/two"]))
    );
    assert_eq!(
        members(&resolved, "web"),
        (Vec::new(), owned(&["/web/app", "/web/app", "/api/one"]))
    );
}

#[test]
fn includes_resolve_to_the_union_of_members() {
    let cfg = Config {
        workspaces: vec![
            ws("backend", &["/backend/root"], &["/api", "/worker"]),
            ws("frontend", &[], &["/web"]),
            composed(
                "platform",
                &["backend", "frontend"],
                &[],
                &["/shared-infra"],
            ),
        ],
        ..Default::default()
    };
    let resolved = resolve(&cfg);
    assert_eq!(
        members(&resolved, "platform"),
        (
            owned(&["/backend/root"]),
            owned(&["/shared-infra", "/api", "/worker", "/web"])
        ),
        "own declarations first, then each included workspace's, in `includes` order"
    );
    assert_eq!(
        members(&resolved, "backend"),
        (owned(&["/backend/root"]), owned(&["/api", "/worker"])),
        "an included workspace is composed, not consumed"
    );
    assert_eq!(members(&resolved, "frontend").1, owned(&["/web"]));
    assert!(
        resolved.iter().all(|r| r.linked),
        "a composed workspace is an ordinary linked group: {resolved:?}"
    );
}

#[test]
fn includes_fold_transitively_through_three_levels() {
    let cfg = Config {
        workspaces: vec![
            composed("everything", &["platform"], &[], &["/top"]),
            composed("platform", &["backend"], &[], &["/shared-infra"]),
            ws("backend", &[], &["/api"]),
        ],
        ..Default::default()
    };
    let resolved = resolve(&cfg);
    assert_eq!(
        members(&resolved, "everything").1,
        owned(&["/top", "/shared-infra", "/api"]),
        "a member three levels down folds in"
    );
    // Declared above the workspaces it includes, and resolved just the same.
    assert_eq!(
        members(&resolved, "platform").1,
        owned(&["/shared-infra", "/api"])
    );
}

#[test]
fn includes_diamond_yields_each_member_once() {
    let cfg = Config {
        workspaces: vec![
            composed("top", &["left", "right"], &[], &["/top"]),
            composed("left", &["base"], &[], &["/left"]),
            composed("right", &["base"], &[], &["/right"]),
            ws("base", &["/base/root"], &["/base"]),
        ],
        ..Default::default()
    };
    let resolved = resolve(&cfg);
    assert_eq!(
        members(&resolved, "top"),
        (
            owned(&["/base/root"]),
            owned(&["/top", "/left", "/base", "/right"])
        ),
        "the shared member appears once, at the point it was first reached"
    );
}

#[test]
fn includes_dedupe_by_expanded_path_not_by_declared_string() {
    let home = Some("/home/alice".to_owned());
    let literal = "/home/alice/git/api";
    let cfg = Config {
        workspaces: vec![
            composed("platform", &["backend"], &[], &[literal]),
            ws("backend", &[], &["~/git/api"]),
        ],
        ..Default::default()
    };
    let resolved = cfg.resolved_workspaces(&home, &none()).expect("resolve");
    assert_eq!(
        members(&resolved, "platform").1,
        owned(&[literal]),
        "`~/git/api` and its expansion are one member, not two"
    );
}

#[test]
fn includes_cycle_is_refused_naming_the_path() {
    let cfg = Config {
        workspaces: vec![
            composed("a", &["b"], &[], &["/a"]),
            composed("b", &["c"], &[], &["/b"]),
            composed("c", &["a"], &[], &["/c"]),
        ],
        ..Default::default()
    };
    let err = refusal(&cfg);
    assert!(err.contains("workspace include cycle"), "{err}");
    assert!(
        err.contains("`a` → `b` → `c` → `a`"),
        "the error must name the path that closed the cycle; was: {err}"
    );
}

#[test]
fn includes_self_reference_is_refused() {
    let cfg = Config {
        workspaces: vec![composed("solo", &["solo"], &[], &["/solo"])],
        ..Default::default()
    };
    let err = refusal(&cfg);
    assert!(err.contains("workspace include cycle"), "{err}");
    assert!(err.contains("`solo` → `solo`"), "{err}");
}

#[test]
fn unknown_include_is_refused_listing_the_known_workspaces() {
    let cfg = Config {
        workspaces: vec![
            ws("one", &[], &["/one"]),
            ws("two", &[], &["/two"]),
            composed("gamma", &["nope"], &[], &["/gamma"]),
        ],
        ..Default::default()
    };
    let err = refusal(&cfg);
    assert!(
        err.contains("no workspace named `nope` (known: one, two, gamma)"),
        "the refusal must match how `--workspace-name` refuses; was: {err}"
    );
    assert!(
        err.contains("`gamma`"),
        "and name the workspace that referred to it; was: {err}"
    );
}

#[test]
fn standalone_repos_cannot_be_included() {
    let cfg = Config {
        workspaces: vec![composed("platform", &["docs"], &[], &["/shared"])],
        standalone: WorkspaceConfig {
            roots: None,
            repos: some(&["/solo/docs"]),
        },
        ..Default::default()
    };
    let err = refusal(&cfg);
    assert!(err.contains("no workspace named `docs`"), "{err}");
    assert!(
        err.contains("`[standalone]` repos are unnamed"),
        "the refusal must say why a standalone repo is not includable; was: {err}"
    );
}

#[test]
fn legacy_workspace_is_includable_as_default() {
    let cfg = Config {
        workspace: WorkspaceConfig {
            roots: None,
            repos: some(&["/legacy"]),
        },
        workspaces: vec![composed("platform", &["default"], &[], &["/shared"])],
        ..Default::default()
    };
    let resolved = resolve(&cfg);
    assert_eq!(
        members(&resolved, "platform").1,
        owned(&["/shared", "/legacy"])
    );
    assert_eq!(
        members(&resolved, "default").1,
        owned(&["/legacy"]),
        "including the legacy table composes it, it does not consume it"
    );
}

#[test]
fn standalone_root_yields_one_single_repo_group_per_repo() {
    let cfg = Config {
        standalone: WorkspaceConfig {
            roots: some(&["/base/pool"]),
            repos: None,
        },
        ..Default::default()
    };
    let found = vec![owned(&["/base/pool/svc-a", "/base/pool/svc-b"])];
    let resolved = cfg.resolved_workspaces(&None, &found).expect("resolve");
    assert_eq!(resolved.len(), 2, "one group per repo: {resolved:?}");
    for rw in &resolved {
        assert!(!rw.linked, "standalone repos are unlinked: {rw:?}");
        assert_eq!(rw.repos.len(), 1, "each is a singleton: {rw:?}");
        assert!(rw.roots.is_empty(), "expanded, not a roots scan: {rw:?}");
    }
    assert_eq!(
        names(&resolved),
        vec!["svc-a", "svc-b"],
        "named after repo dirs, sorted"
    );
}

#[test]
fn resolved_workspaces_expand_leading_tilde_in_all_path_inputs() {
    let home = Some("/home/alice".to_owned());
    let joined = |rest: &str| format!("/home/alice/{rest}");
    let cfg = Config {
        workspace: WorkspaceConfig {
            roots: some(&["~/legacy/root"]),
            repos: some(&["~/legacy/repo"]),
        },
        workspaces: vec![ws("api", &["~/api/root"], &["~/api/repo"])],
        standalone: WorkspaceConfig {
            roots: None,
            repos: some(&["~/solo/repo", "/abs/solo"]),
        },
        ..Default::default()
    };
    let resolved = cfg.resolved_workspaces(&home, &none()).expect("resolve");
    let by_name = |n: &str| resolved.iter().find(|r| r.name == n).expect("group");

    let d = by_name("default");
    assert_eq!(d.roots, vec![joined("legacy/root")]);
    assert_eq!(d.repos, vec![joined("legacy/repo")]);
    let api = by_name("api");
    assert_eq!(api.roots, vec![joined("api/root")]);
    assert_eq!(api.repos, vec![joined("api/repo")]);
    assert_eq!(by_name("repo").repos, vec![joined("solo/repo")]);
    assert_eq!(by_name("solo").repos, owned(&["/abs/solo"]));

    // No expanded path still carries a literal leading `~`.
    for rw in &resolved {
        for p in rw.roots.iter().chain(&rw.repos) {
            assert!(!p.starts_with('~'), "unexpanded tilde survived: {p}");
        }
    }
}

#[test]
fn a_repeated_name_takes_the_next_free_number() {
    let mut used = owned(&["app", "app-3"]);
    assert_eq!(dedupe_workspace_name(&mut used, "app"), "app-2");
    assert_eq!(dedupe_workspace_name(&mut used, "app"), "app-4");
    assert_eq!(dedupe_workspace_name(&mut used, "web"), "web");
    assert!(used.contains(&"web".to_owned()));
}

#[test]
fn a_standalone_repo_found_twice_is_served_once() {
    let cfg = Config {
        standalone: WorkspaceConfig {
            roots: some(&["/pool"]),
            repos: some(&["/pool/a/", "/x"]),
        },
        ..Default::default()
    };
    let found = vec![owned(&["/pool/a", "/pool/b"])];
    let resolved = cfg.resolved_workspaces(&None, &found).expect("resolve");
    assert_eq!(resolved.len(), 3, "{resolved:?}");
}
