use roteiro::config::paths::{
    default_log_path, expand_tilde, expand_tilde_all, extension, file_name, find_project_config,
    join_path, path_components, roteiro_home, user_config_path, Ancestor,
};
use roteiro::config::{
    debt_ignore_for, image_key, lint_allow_unsandboxed_effective, merge_ignore, model_pin,
    remote_enabled_effective, Build, Config, DebtConfig, GateThresholds, InferConfig,
    IngestChoice, IngestConfig, LintConfig, Loaded, MediaConfig, ModelsConfig, RemoteConfig,
    SecurityConfig, ServeConfig, TelemetryConfig, WorkspaceConfig,
};
use roteiro::names::NameMap;

fn owned(items: &[&str]) -> Vec<String> {
    items.iter().map(|s| (*s).to_owned()).collect()
}

fn some(items: &[&str]) -> Option<Vec<String>> {
    Some(owned(items))
}

/// A build that can do everything.
const FULL: Build = Build {
    remote: true,
    lint: true,
};

fn load_from(user: Option<Config>, project: Option<Config>) -> Loaded {
    let user_path = user.as_ref().map(|_| "config.toml".to_owned());
    let project_path = project.as_ref().map(|_| "roteiro.toml".to_owned());
    Loaded::load_from(
        user.unwrap_or_default(),
        project.unwrap_or_default(),
        user_path,
        project_path,
        FULL,
    )
}

fn debt(ignore: Option<&[&str]>, reset: Option<bool>) -> Config {
    Config {
        debt: DebtConfig {
            ignore: ignore.map(owned),
            ignore_reset: reset,
        },
        ..Default::default()
    }
}

fn bits(x: f64) -> u64 {
    x.to_bits()
}

#[test]
fn a_models_key_is_reported_exactly_as_it_is_resolved() {
    let keys = [
        ("generative", "qwen3-8b"),
        ("audio", "voxtral-mini-3b"),
        ("embedding", "bge-base-en-v1.5"),
    ];
    for (key, model) in keys {
        for raw in [
            "",
            "   ",
            "\t\n ",
            model,
            &format!("  {model}  "),
            &format!("{model}\t"),
        ] {
            let mut cfg = ModelsConfig::default();
            let slot = match key {
                "generative" => &mut cfg.generative,
                "audio" => &mut cfg.audio,
                _ => &mut cfg.embedding,
            };
            *slot = Some(raw.to_owned());

            let reported = cfg.get(key);
            // What resolves the pins reads each as the report does.
            let pins = cfg.resolve();
            let resolved = model_pin(match key {
                "generative" => &pins.generative,
                "audio" => &pins.audio,
                _ => &pins.embedding,
            });
            assert_eq!(reported, resolved, "{key} = {raw:?}");
            let expected = if raw.trim().is_empty() {
                None
            } else {
                Some(model.to_owned())
            };
            assert_eq!(reported, expected, "{key} = {raw:?}");

            // Normalised, the slot itself says the same.
            cfg.normalize();
            let settled = match key {
                "generative" => &cfg.generative,
                "audio" => &cfg.audio,
                _ => &cfg.embedding,
            };
            assert_eq!(*settled, expected, "{key} = {raw:?}");
        }
    }
    assert_eq!(ModelsConfig::default().get("translation"), None);
    assert_eq!(model_pin(&Some(" a b ".to_owned())), Some("a b".to_owned()));
}

#[test]
fn a_blank_pin_is_dropped_when_the_layer_is_parsed() {
    let project = Config {
        models: ModelsConfig {
            audio: Some("   ".to_owned()),
            generative: Some("  qwen3-8b  ".to_owned()),
            ..Default::default()
        },
        ..Default::default()
    };
    let loaded = load_from(None, Some(project));
    assert_eq!(loaded.effective.models.audio, None);
    assert_eq!(loaded.project.models.audio, None);
    // A real name survives, trimmed.
    assert_eq!(
        loaded.effective.models.generative.as_deref(),
        Some("qwen3-8b")
    );
}

fn at(dir: &str, has_git: bool, has_config: bool) -> Ancestor {
    Ancestor {
        dir: dir.to_owned(),
        has_git,
        has_config,
    }
}

#[test]
fn project_config_is_repo_root_bounded() {
    // A `roteiro.toml` above the repo is not picked up from inside the repo.
    let without = vec![
        at("/root/repo/crate/src", false, false),
        at("/root/repo/crate", false, false),
        at("/root/repo", true, false),
        at("/root", false, true),
        at("/", false, false),
    ];
    assert_eq!(find_project_config(&without), None);

    // With a config at the repo root, running from a nested subdir finds it.
    let with = vec![
        at("/root/repo/crate/src", false, false),
        at("/root/repo/crate", false, false),
        at("/root/repo", true, true),
        at("/root", false, true),
        at("/", false, false),
    ];
    assert_eq!(
        find_project_config(&with),
        Some("/root/repo/roteiro.toml".to_owned())
    );

    // Not inside a git repo at all → None (the outside config is ignored).
    assert_eq!(
        find_project_config(&vec![at("/root", false, true), at("/", false, false)]),
        None
    );
}

#[test]
fn config_layering_precedence_and_errors() {
    // No config files → all defaults.
    let loaded = load_from(None, None);
    assert_eq!(loaded.effective.infer.top_k, None);
    assert_eq!(loaded.effective.infer.min_confidence, None);
    assert!(loaded.project_path.is_none());

    // User layer sets both infer knobs and an embedding model; project layer
    // overrides min_confidence only.
    let user = Config {
        infer: InferConfig {
            min_confidence: Some(bits(0.3)),
            top_k: Some(9),
        },
        models: ModelsConfig {
            embedding: Some("bge-base-en-v1.5".to_owned()),
            ..Default::default()
        },
        ..Default::default()
    };
    let project = Config {
        infer: InferConfig {
            min_confidence: Some(bits(0.7)),
            top_k: None,
        },
        ..Default::default()
    };
    let loaded = load_from(Some(user), Some(project));
    // project wins for min_confidence; user's top_k + embedding survive.
    assert_eq!(
        loaded.effective.infer.min_confidence.map(f64::from_bits),
        Some(0.7)
    );
    assert_eq!(loaded.effective.infer.top_k, Some(9));
    assert_eq!(
        loaded.effective.models.embedding.as_deref(),
        Some("bge-base-en-v1.5")
    );
    assert_eq!(loaded.user.infer.min_confidence, Some(bits(0.3)));
    assert_eq!(loaded.project.infer.min_confidence, Some(bits(0.7)));
    assert_eq!(loaded.user_path.as_deref(), Some("config.toml"));
    assert_eq!(loaded.project_path.as_deref(), Some("roteiro.toml"));

    // `[pins]` merges per key (project over user).
    let mut user = Config::default();
    user.pins.insert("app", "v{tag}".to_owned());
    user.pins.insert("other", "user-{tag}".to_owned());
    let mut project = Config::default();
    project.pins.insert("app", "release-{tag}".to_owned());
    let loaded = load_from(Some(user), Some(project));
    assert_eq!(
        loaded.effective.pins.get("app").map(String::as_str),
        Some("release-{tag}")
    );
    assert_eq!(
        loaded.effective.pins.get("other").map(String::as_str),
        Some("user-{tag}")
    );
}

#[test]
fn debt_ignore_merges_across_layers_instead_of_replacing() {
    let user = || debt(Some(&["vendor/**", "target/**"]), None);
    let loaded = load_from(Some(user()), Some(debt(Some(&["thirdparty/**"]), None)));

    // The union, inherited first.
    assert_eq!(
        loaded.effective.debt.ignore,
        some(&["vendor/**", "target/**", "thirdparty/**"])
    );
    // Every pattern reports the layer it came from, so the merge is legible.
    assert_eq!(
        loaded.debt_ignore_sources(),
        vec![
            ("vendor/**", "user"),
            ("target/**", "user"),
            ("thirdparty/**", "project"),
        ]
    );
    assert!(loaded.debt_ignore_discarded().is_empty(), "nothing dropped");

    // A pattern named by both layers appears once, tagged with both.
    let project = || debt(Some(&["vendor/**", "thirdparty/**"]), None);
    let loaded = load_from(Some(user()), Some(project()));
    assert_eq!(
        loaded.effective.debt.ignore,
        some(&["vendor/**", "target/**", "thirdparty/**"]),
        "a duplicate pattern is not listed twice"
    );
    assert_eq!(
        loaded.debt_ignore_sources()[0],
        ("vendor/**", "project, user")
    );

    // One layer alone still works, in both directions.
    assert_eq!(
        load_from(Some(user()), None).effective.debt.ignore,
        some(&["vendor/**", "target/**"])
    );
    assert_eq!(
        load_from(None, Some(project())).effective.debt.ignore,
        some(&["vendor/**", "thirdparty/**"])
    );
    // Neither layer ⇒ unset.
    assert!(load_from(None, None).effective.debt.ignore.is_none());
}

#[test]
fn debt_ignore_reset_drops_the_inherited_list_visibly() {
    let user = || debt(Some(&["vendor/**", "target/**"]), None);

    // With the reset, only the project's own patterns remain…
    let loaded = load_from(
        Some(user()),
        Some(debt(Some(&["thirdparty/**"]), Some(true))),
    );
    assert_eq!(loaded.effective.debt.ignore, some(&["thirdparty/**"]));
    assert_eq!(loaded.effective.debt.ignore_reset, Some(true));
    // …and the drop is reportable, not merely effective.
    assert_eq!(
        loaded.debt_ignore_discarded(),
        vec!["vendor/**", "target/**"]
    );

    // A reset with no list of its own excludes nothing at all.
    let bare = load_from(Some(user()), Some(debt(None, Some(true))));
    assert!(bare.effective.debt.ignore.is_none(), "inherits nothing");
    assert_eq!(bare.debt_ignore_discarded(), vec!["vendor/**", "target/**"]);

    // `ignore_reset = false` is not a reset: the merge stands.
    let off = load_from(
        Some(user()),
        Some(debt(Some(&["thirdparty/**"]), Some(false))),
    );
    assert_eq!(
        off.effective.debt.ignore,
        some(&["vendor/**", "target/**", "thirdparty/**"])
    );
    assert!(off.debt_ignore_discarded().is_empty());
}

#[test]
fn an_inert_user_layer_reset_does_not_claim_a_reset_that_never_happened() {
    let user = || debt(Some(&["vendor/**", "target/**"]), Some(true));

    // The user asks for a reset, the project does not.
    let loaded = load_from(Some(user()), Some(debt(Some(&["thirdparty/**"]), None)));
    assert_ne!(loaded.effective.debt.ignore_reset, Some(true));
    assert!(
        loaded.debt_ignore_reset_was_inert(),
        "the user asked for a reset that did nothing; that must be reportable"
    );
    assert!(loaded.debt_ignore_discarded().is_empty());
    // Both layers' patterns survive, in merge order.
    assert_eq!(
        loaded.effective.debt.ignore,
        some(&["vendor/**", "target/**", "thirdparty/**"])
    );

    // The project layer's reset governs, so it is reported.
    let both = load_from(
        Some(user()),
        Some(debt(Some(&["thirdparty/**"]), Some(true))),
    );
    assert_eq!(both.effective.debt.ignore_reset, Some(true));
    assert_eq!(both.debt_ignore_discarded(), vec!["vendor/**", "target/**"]);
    assert!(!both.debt_ignore_reset_was_inert());

    // With no project config at all, the user's reset is still inert.
    let alone = load_from(Some(user()), None);
    assert_ne!(alone.effective.debt.ignore_reset, Some(true));
    assert!(alone.debt_ignore_reset_was_inert());
    assert_eq!(
        alone.effective.debt.ignore,
        some(&["vendor/**", "target/**"]),
        "and it resets none of the user's own patterns"
    );
}

#[test]
fn other_list_keys_still_replace_rather_than_merge() {
    let layer = |root: &str, model: &str| Config {
        workspace: WorkspaceConfig {
            roots: some(&[root]),
            repos: None,
        },
        serve: ServeConfig {
            models: some(&[model]),
            ..Default::default()
        },
        ..Default::default()
    };
    let loaded = load_from(Some(layer("/u/one", "a")), Some(layer("/p/two", "b")));
    assert_eq!(
        loaded.effective.workspace.roots,
        some(&["/p/two"]),
        "discovery roots replace"
    );
    assert_eq!(
        loaded.effective.serve.models,
        some(&["b"]),
        "model selection replaces"
    );
}

#[test]
fn telemetry_block_parses_and_overlays_per_field() {
    // Absent table ⇒ all fields None (file logging off by default).
    let none = Config::default();
    assert_eq!(none.telemetry.file, None);
    assert_eq!(none.telemetry.rotation, None);
    assert_eq!(none.telemetry.format, None);

    let user = Config {
        telemetry: TelemetryConfig {
            file: Some("~/.roteiro/logs/roteiro.log".to_owned()),
            rotation: Some("daily".to_owned()),
            format: Some("otel".to_owned()),
        },
        ..Default::default()
    };
    // Project overrides only `rotation`; user's `file`/`format` survive.
    let project = Config {
        telemetry: TelemetryConfig {
            rotation: Some("hourly".to_owned()),
            ..Default::default()
        },
        ..Default::default()
    };
    let merged = user.overlaid_with(&project, FULL);
    assert_eq!(merged.telemetry.rotation.as_deref(), Some("hourly"));
    assert_eq!(
        merged.telemetry.file.as_deref(),
        Some("~/.roteiro/logs/roteiro.log")
    );
    assert_eq!(merged.telemetry.format.as_deref(), Some("otel"));
}

#[test]
fn expand_tilde_handles_bare_and_prefixed_and_passes_others_through() {
    let h = Some("/home/alice".to_owned());
    assert_eq!(expand_tilde("~", &h), "/home/alice");
    assert_eq!(expand_tilde("~/foo/bar", &h), "/home/alice/foo/bar");
    // No leading `~` → unchanged (absolute and relative alike).
    assert_eq!(expand_tilde("/abs/path", &h), "/abs/path");
    assert_eq!(expand_tilde("rel/path", &h), "rel/path");
    // `~user` (neither `~` nor `~/`) is not home-expansion — left verbatim.
    assert_eq!(expand_tilde("~bob/x", &h), "~bob/x");
    // No home available → the `~` forms are left as they are.
    assert_eq!(expand_tilde("~/foo", &None), "~/foo");
    assert_eq!(expand_tilde("~", &None), "~");
    assert_eq!(
        expand_tilde_all(&owned(&["~/a", "/b"]), &h),
        owned(&["/home/alice/a", "/b"])
    );
}

#[test]
fn the_lint_merge_delegates_the_inversion_rather_than_repeating_it() {
    let lint = |v: Option<bool>| LintConfig {
        allow_unsandboxed: v,
        ..Default::default()
    };
    for project in [None, Some(true), Some(false)] {
        for user in [None, Some(true), Some(false)] {
            let merged = lint(user).overlaid_with(&lint(project), true);
            assert_eq!(
                merged.allow_unsandboxed,
                lint_allow_unsandboxed_effective(user, project, true),
                "project={project:?} user={user:?}"
            );
        }
    }
    let project_grant = lint(None).overlaid_with(&lint(Some(true)), true);
    assert_eq!(
        project_grant.allow_unsandboxed, None,
        "a committed grant must not become effective"
    );
    let project_deny = lint(Some(true)).overlaid_with(&lint(Some(false)), true);
    assert_eq!(
        project_deny.allow_unsandboxed,
        Some(false),
        "a committed denial must override a user grant"
    );
}

#[test]
fn the_lint_image_takes_ordinary_precedence_unlike_the_key_beside_it() {
    let image = |user: Option<&str>, project: Option<&str>| {
        LintConfig {
            image: user.map(str::to_owned),
            ..LintConfig::default()
        }
        .overlaid_with(
            &LintConfig {
                image: project.map(str::to_owned),
                ..LintConfig::default()
            },
            true,
        )
        .image
    };
    assert_eq!(
        image(Some("user@sha256:a"), Some("project@sha256:b")),
        Some("project@sha256:b".to_owned()),
        "a project may choose where its team's boundary comes from"
    );
    assert_eq!(
        image(Some("user@sha256:a"), None),
        Some("user@sha256:a".to_owned())
    );
    assert_eq!(
        image(None, Some("project@sha256:b")),
        Some("project@sha256:b".to_owned())
    );
    assert_eq!(image(None, None), None);

    // And the contrast: the same project layer that supplies an image cannot
    // supply a grant.
    let both = LintConfig {
        allow_unsandboxed: None,
        image: None,
    }
    .overlaid_with(
        &LintConfig {
            allow_unsandboxed: Some(true),
            image: Some("project@sha256:b".to_owned()),
        },
        true,
    );
    assert_eq!(both.image, Some("project@sha256:b".to_owned()));
    assert_eq!(
        both.allow_unsandboxed, None,
        "the locator carries from the project layer; the permission does not"
    );
}

fn images(entries: &[(&str, &str)]) -> SecurityConfig {
    let mut map = NameMap::new();
    for (k, v) in entries {
        map.insert(k, (*v).to_owned());
    }
    SecurityConfig { images: map }
}

#[test]
fn security_images_layer_per_analyzer_rather_than_per_table() {
    let hex = "a".repeat(64);
    let user = Config {
        security: images(&[
            ("semgrep", &format!("mine/semgrep@sha256:{hex}")),
            ("cargo-audit", &format!("mine/audit@sha256:{hex}")),
        ]),
        ..Default::default()
    };
    let project = Config {
        security: images(&[("semgrep", &format!("ours/semgrep@sha256:{hex}"))]),
        ..Default::default()
    };
    let loaded = load_from(Some(user), Some(project));
    let images = &loaded.effective.security.images;
    assert_eq!(
        images.get("semgrep").map(String::as_str),
        Some(format!("ours/semgrep@sha256:{hex}").as_str()),
        "project over user, per analyzer"
    );
    assert_eq!(
        images.get("cargo-audit").map(String::as_str),
        Some(format!("mine/audit@sha256:{hex}").as_str()),
        "a project entry for one analyzer must not discard a user entry for another"
    );
    assert_eq!(images.len(), 2);
    assert_eq!(
        loaded.effective.security.image_for("cargo-audit"),
        Some(format!("mine/audit@sha256:{hex}").as_str())
    );
    assert_eq!(loaded.effective.security.image_for("osv-scanner"), None);
    let declared: Vec<String> = loaded
        .effective
        .security
        .declared()
        .into_iter()
        .map(|d| d.0)
        .collect();
    assert_eq!(declared, owned(&["cargo-audit", "semgrep"]));
}

#[test]
fn no_security_table_declares_nothing_and_reports_nothing() {
    let empty = Config::default();
    assert!(empty.security.images.is_empty());
    assert!(empty.security.image_for("semgrep").is_none());
    assert!(
        empty
            .security
            .problems(&vec![], &owned(&["semgrep"]), true)
            .is_empty(),
        "an absent table has nothing wrong with it"
    );
}

#[test]
fn a_bad_security_image_is_reported_rather_than_refused_at_load() {
    let security = images(&[
        ("semgrep", "registry.example/you/semgrep:1.173.0"),
        ("my-favourite-linter", "registry.example/you/lint@sha256:"),
        ("osv-scanner", "registry.example/osv@sha256:aa"),
    ]);
    // What the check of a pin returns: a tag is refused, and says so.
    let pins: Vec<Result<String, String>> = security
        .declared()
        .iter()
        .map(|(analyzer, reference)| match reference.split_once("@sha256:") {
            Some((_, digest)) => Ok(digest.to_owned()),
            None => Err(format!(
                "{}: {reference} is a tag rather than a digest",
                image_key(analyzer)
            )),
        })
        .collect();
    assert_eq!(image_key("semgrep"), "`[security.images] semgrep`");
    let problems = security.problems(&pins, &owned(&["osv-scanner", "semgrep"]), true);
    assert_eq!(problems.len(), 2, "{problems:?}");
    // A build without analyzers has nothing to say.
    let none = security.problems(&pins, &owned(&["osv-scanner", "semgrep"]), false);
    assert!(none.is_empty(), "{none:?}");

    let tag = problems
        .iter()
        .find(|p| p.contains("`[security.images] semgrep`"))
        .expect("the tag is reported");
    assert!(tag.contains("tag rather than a digest"), "{tag}");
    assert!(
        tag.contains("registry.example/you/semgrep:1.173.0"),
        "{tag}"
    );

    let adapter = problems
        .iter()
        .find(|p| p.starts_with("`my-favourite-linter`"))
        .expect("the adapterless analyzer is reported");
    assert!(adapter.contains("adapter"), "{adapter}");
    assert!(
        adapter.contains("(it can read: osv-scanner, semgrep)"),
        "{adapter}"
    );
    assert!(!adapter.contains("tag rather than a digest"), "{adapter}");

    // An analyzer that nothing reads is told so whatever its pin is.
    let tag = images(&[("mine", "registry.example/mine:1")]);
    let problems = tag.problems(&vec![Err("a tag".to_owned())], &owned(&["semgrep"]), true);
    assert_eq!(problems.len(), 1);
    assert!(problems[0].starts_with("`mine` is not an analyzer"), "{problems:?}");
}

#[test]
fn a_permission_is_the_users_to_give_and_the_projects_to_withhold() {
    assert_eq!(remote_enabled_effective(Some(true), None, true), Some(true));
    assert_eq!(remote_enabled_effective(None, Some(true), true), None);
    assert_eq!(
        remote_enabled_effective(Some(true), Some(false), true),
        Some(false)
    );
    assert_eq!(remote_enabled_effective(None, None, true), None);

    let remote = |on: Option<bool>, url: Option<&str>| Config {
        remote: RemoteConfig {
            enabled: on,
            endpoint: url.map(str::to_owned),
            model: None,
        },
        ..Default::default()
    };
    let loaded = load_from(
        Some(remote(None, Some("https://mine"))),
        Some(remote(Some(true), Some("https://ours"))),
    );
    assert_eq!(loaded.effective.remote.enabled, None);
    assert_eq!(
        loaded.effective.remote.endpoint.as_deref(),
        Some("https://ours")
    );
    assert_eq!(loaded.remote_config_grant(), (Some(true), None));
}

#[test]
fn a_build_without_a_tier_reports_its_permission_as_unset() {
    for user in [None, Some(true), Some(false)] {
        for project in [None, Some(true), Some(false)] {
            assert_eq!(remote_enabled_effective(user, project, false), None);
            assert_eq!(lint_allow_unsandboxed_effective(user, project, false), None);
        }
    }
    let user = Config {
        remote: RemoteConfig {
            enabled: Some(true),
            endpoint: Some("https://mine".to_owned()),
            model: None,
        },
        lint: LintConfig {
            allow_unsandboxed: Some(true),
            image: Some("i@sha256:a".to_owned()),
        },
        ..Default::default()
    };
    let lean = Build {
        remote: false,
        lint: false,
    };
    let merged = user.overlaid_with(&Config::default(), lean);
    assert_eq!(merged.remote.enabled, None);
    assert_eq!(merged.lint.allow_unsandboxed, None);
    // The other keys read as in a fuller build.
    assert_eq!(merged.remote.endpoint.as_deref(), Some("https://mine"));
    assert_eq!(merged.lint.image.as_deref(), Some("i@sha256:a"));
    let only_lint = Build {
        remote: false,
        lint: true,
    };
    let merged = user.overlaid_with(&Config::default(), only_lint);
    assert_eq!(merged.remote.enabled, None);
    assert_eq!(merged.lint.allow_unsandboxed, Some(true));
}

#[test]
fn slashes_behind_a_tilde_do_not_leave_home() {
    let h = Some("/home/alice".to_owned());
    assert_eq!(expand_tilde("~//foo", &h), "/home/alice/foo");
    assert_eq!(expand_tilde("~////foo//bar", &h), "/home/alice/foo//bar");
    assert_eq!(expand_tilde("~/", &h), "/home/alice/");
    assert_eq!(expand_tilde("~//", &h), "/home/alice/");
    assert_eq!(expand_tilde("~//foo", &None), "~//foo");
}

#[test]
fn each_project_is_scanned_under_its_own_exclusions() {
    // Without a root there is no configuration to consult.
    let other = Ok(load_from(None, Some(debt(Some(&["docs/**"]), None))));
    assert_eq!(debt_ignore_for(&None, &other), Ok(Vec::new()));
    // A root's own configuration governs.
    let root = Some("/repo/beta".to_owned());
    assert_eq!(debt_ignore_for(&root, &other), Ok(owned(&["docs/**"])));
    assert_eq!(
        debt_ignore_for(&root, &Ok(load_from(None, None))),
        Ok(Vec::new())
    );
    // One that cannot be read is an error, never an empty list.
    assert_eq!(
        debt_ignore_for(&root, &Err("line 3: expected `=`".to_owned())),
        Err(
            "reading the configuration of the repository at /repo/beta: line 3: expected `=`"
                .to_owned()
        )
    );
}

#[test]
fn merging_patterns_keeps_the_first_of_each() {
    let over = DebtConfig {
        ignore: some(&["b", "c", "c"]),
        ignore_reset: None,
    };
    assert_eq!(
        merge_ignore(&some(&["a", "b"]), &over),
        some(&["a", "b", "c"])
    );
    let nearer = DebtConfig {
        ignore: some(&["b"]),
        ignore_reset: None,
    };
    assert_eq!(
        merge_ignore(&some(&["a", "a"]), &nearer),
        some(&["a", "b"])
    );
    assert_eq!(
        merge_ignore(&some(&["b", "a", "b", "a"]), &nearer),
        some(&["b", "a"])
    );
    assert_eq!(merge_ignore(&None, &over), some(&["b", "c", "c"]));
    assert_eq!(
        merge_ignore(&some(&["a"]), &DebtConfig::default()),
        some(&["a"])
    );
}

#[test]
fn what_is_left_open_takes_the_default() {
    let all = IngestChoice {
        prose: true,
        pdf: true,
        ocr: true,
        vision: true,
        audio: true,
    };
    assert_eq!(IngestConfig::default().resolve(), all);
    let cfg = IngestConfig {
        pdf: Some(false),
        audio: Some(true),
        ..Default::default()
    };
    assert_eq!(cfg.resolve(), IngestChoice { pdf: false, ..all });

    let disabled = GateThresholds {
        silence_rms: bits(0.0),
        image_variance: bits(0.0),
    };
    let set = MediaConfig {
        silence_rms: Some(bits(0.5)),
        ..Default::default()
    };
    let r = set.resolve(disabled);
    assert_eq!(f64::from_bits(r.silence_rms), 0.5);
    assert_eq!(f64::from_bits(r.image_variance), 0.00001);
    let r = MediaConfig::default().resolve(disabled);
    assert_eq!(f64::from_bits(r.silence_rms), 0.0001);
    let off = MediaConfig {
        gate: Some(false),
        silence_rms: Some(bits(0.5)),
        ..Default::default()
    };
    assert_eq!(off.resolve(disabled), disabled);
}

#[test]
fn homes_and_their_paths() {
    let own = Some("/srv/roteiro".to_owned());
    let home = Some("/home/alice".to_owned());
    assert_eq!(roteiro_home(&own, &home), own);
    assert_eq!(
        roteiro_home(&None, &home),
        Some("/home/alice/.roteiro".to_owned())
    );
    assert_eq!(roteiro_home(&None, &None), None);
    assert_eq!(
        user_config_path(&None, &home),
        Some("/home/alice/.roteiro/config.toml".to_owned())
    );
    assert_eq!(user_config_path(&None, &None), None);
    assert_eq!(
        default_log_path(&own, &None).map(|p| p.starts_with("/srv/roteiro/")),
        Some(true)
    );
}

#[test]
fn paths_agree_with_std() {
    let samples = [
        "", "/", ".", "..", "a", "a/b", "a//b/", "./a", "a/./b", "/a/../b", "a.tar.gz", ".hidden",
        "a.", "a/.x.y/", "x/..", "/a/b.rs",
    ];
    for s in samples {
        let p = std::path::Path::new(s);
        let expected: Vec<String> = p
            .components()
            .map(|c| c.as_os_str().to_str().unwrap().to_owned())
            .collect();
        assert_eq!(path_components(s), expected, "{s:?}");
        let name = p.file_name().map(|n| n.to_str().unwrap().to_owned());
        assert_eq!(file_name(s), name, "{s:?}");
        let ext = p.extension().map(|n| n.to_str().unwrap().to_owned());
        assert_eq!(extension(s), ext, "{s:?}");
        for t in ["b", "/b", "", "b/"] {
            let joined = p.join(t).to_str().unwrap().to_owned();
            assert_eq!(join_path(s, t), joined, "{s:?} {t:?}");
        }
    }
}
