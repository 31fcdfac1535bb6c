use roteiro::init::{
    agents_section, ensure_agents, hook_script, install_hook, install_skill, is_managed_hook,
    is_managed_skill, managed_block_range, managed_hooks, okf_refresh, skill_path, updated_agents,
    HookOutcome,
};

#[test]
fn hook_is_recognisable_and_self_guarding() {
    let s = hook_script("post-checkout", false, false);
    assert!(is_managed_hook(&s));
    assert!(s.starts_with("#!/bin/sh"));
    assert!(s.contains("command -v roteiro"));
    assert!(
        s.contains("roteiro sync --committed"),
        "freshness hook syncs"
    );
    // The default freshness hook does not touch the network or render a bundle.
    assert!(!s.contains("gh release download"));
    assert!(!s.contains("render okf"), "bundle render is opt-in");
    assert!(!is_managed_hook("#!/bin/sh\necho other\n"));
}

#[test]
fn okf_flag_appends_bundle_render_to_freshness_hooks_only() {
    // `--okf` adds a bundle regeneration step to the freshness hooks…
    let fresh = hook_script("post-merge", false, true);
    assert!(
        fresh.contains("\troteiro render okf >"),
        "freshness hook regenerates the bundle with --okf: {fresh}"
    );
    assert!(
        fresh.contains("roteiro sync --committed"),
        "still syncs first"
    );
    // A failing render must be audible.
    assert!(
        !fresh.contains("render okf >/dev/null 2>&1"),
        "the render's stderr must reach the user: {fresh}"
    );
    assert!(
        fresh.contains("could not refresh the OKF bundle in okf/ —"),
        "a failing render must name itself: {fresh}"
    );
    // …and composes with --fetch: a successful load sets a flag and does not
    // exit, so the bundle render is reached.
    let fetch_okf = hook_script("post-checkout", true, true);
    assert!(
        fetch_okf.contains("\troteiro render okf >"),
        "bundle render is present with --fetch --okf: {fetch_okf}"
    );
    assert!(
        fetch_okf.contains("loaded=1"),
        "fetch success records a flag, not an early exit"
    );
    assert!(
        !fetch_okf.contains("; exit 0"),
        "no early `exit 0` that would short-circuit the appended bundle render"
    );
    // …but never touches the pre-commit hook.
    assert!(!hook_script("pre-commit", false, true).contains("render okf"));
}

#[test]
fn fetch_hook_tries_artifact_then_falls_back_to_sync() {
    let s = hook_script("post-merge", true, false);
    assert!(is_managed_hook(&s));
    assert!(s.contains("command -v gh"), "guards on gh being installed");
    assert!(
        s.contains("gh release download graph-latest"),
        "fetches the CI artifact"
    );
    assert!(s.contains("roteiro load"), "loads the fetched artifact");
    assert!(
        s.contains("roteiro sync --committed"),
        "falls back to a local rebuild"
    );
    // Neither `--fetch` nor `--okf` alters the pre-commit hook.
    assert_eq!(
        hook_script("pre-commit", true, true),
        hook_script("pre-commit", false, false)
    );
}

#[test]
fn pre_commit_hook_gates_on_check_and_is_skippable() {
    let s = hook_script("pre-commit", false, false);
    assert!(is_managed_hook(&s));
    assert!(s.contains("command -v roteiro"), "guards on install");
    assert!(s.contains("roteiro check"), "runs the worktree-aware check");
    assert!(s.contains("exit 1"), "blocks the commit on drift");
    assert!(s.contains("--no-verify"), "documents the escape hatch");
    // Distinct from the freshness hooks — it must not just sync.
    assert!(!s.contains("roteiro sync"));
}

#[test]
fn install_creates_updates_and_skips_foreign() {
    // First install → created.
    let (outcome, written) = install_hook(&None, "post-checkout", false, false);
    assert_eq!(outcome, HookOutcome::Installed);
    let script = written.expect("a new hook is written");
    assert_eq!(script, hook_script("post-checkout", false, false));

    // Second install → updated (managed).
    let (outcome, written) = install_hook(&Some(script.clone()), "post-checkout", false, false);
    assert_eq!(outcome, HookOutcome::Updated);
    assert_eq!(written, Some(script));

    // A foreign hook is left untouched.
    let foreign = Some("#!/bin/sh\necho mine\n".to_owned());
    let (outcome, written) = install_hook(&foreign, "post-merge", false, false);
    assert_eq!(outcome, HookOutcome::SkippedForeign);
    assert_eq!(written, None);
}

#[test]
fn agents_created_updated_and_idempotent() {
    // Created.
    let first = ensure_agents("").expect("create");
    assert!(first.contains("Roteiro knowledge graph"));

    // Idempotent: no change on re-run.
    assert_eq!(ensure_agents(&first), None);

    // Appends after pre-existing content, and replaces only the managed block.
    let merged = ensure_agents("# My agents\n\nHello.\n").expect("append");
    assert!(merged.starts_with("# My agents"));
    assert!(merged.contains("Roteiro knowledge graph"));
    // Exactly one managed block (two markers).
    assert_eq!(merged.matches("<!-- roteiro-managed -->").count(), 2);

    // Re-running after manual edits still yields a single managed block.
    assert_eq!(ensure_agents(&merged), None);
    assert_eq!(
        agents_section().matches("<!-- roteiro-managed -->").count(),
        2
    );
}

#[test]
fn agents_section_points_at_search_and_the_skill() {
    let s = agents_section();
    // The lean block names the discovery entry point and the deeper guide.
    assert!(
        s.contains("`search`"),
        "search is the find-then-explain entry"
    );
    assert!(s.contains("roteiro review"), "review is still called out");
    assert!(
        s.contains(".agents/skills/roteiro/SKILL.md"),
        "points at the installed skill for depth"
    );
}

/// The YAML frontmatter of `md`, or `None` if the document does not *begin* with
/// a frontmatter block.
fn frontmatter(md: &str) -> Option<&str> {
    let rest = md.strip_prefix("---\n")?;
    let end = rest.find("\n---\n")?;
    Some(&rest[..end])
}

#[test]
fn frontmatter_is_recognised_only_when_it_is_first() {
    let body = "name: roteiro\ndescription: d";
    let good = format!("---\n{body}\n---\n\n# Heading\n");
    assert_eq!(frontmatter(&good), Some(body), "block at byte 0 is read");
    // Being managed does not depend on the position, being frontmatter does.
    assert!(!is_managed_skill(&good));

    let shipped = format!("<!-- roteiro-managed -->\n<!-- x -->\n---\n{body}\n---\n");
    assert!(is_managed_skill(&shipped));
    assert!(
        shipped.contains("name: roteiro") && shipped.contains("description:"),
        "the shape satisfies every needle"
    );
    assert_eq!(
        frontmatter(&shipped),
        None,
        "two comments above the block mean the document has no frontmatter"
    );

    // Even one blank line ahead of it is fatal to an anchored matcher.
    assert_eq!(frontmatter(&format!("\n---\n{body}\n---\n")), None);
    // An opening delimiter with no closing one is not a block either.
    assert_eq!(frontmatter("---\nname: roteiro\n"), None);
}

#[test]
fn install_skill_creates_updates_and_skips_foreign() {
    let skill = "---\nname: roteiro\n---\n<!-- roteiro-managed -->\n";
    let path = skill_path("/repo/.agents");
    assert_eq!(path, "/repo/.agents/skills/roteiro/SKILL.md");

    // First install → created.
    assert_eq!(
        install_skill(&None, skill),
        (HookOutcome::Installed, Some(skill.to_owned()))
    );
    // Second install → refreshed in place (managed).
    assert_eq!(
        install_skill(&Some(skill.to_owned()), skill),
        (HookOutcome::Updated, Some(skill.to_owned()))
    );
    // A foreign SKILL.md is left untouched.
    assert_eq!(
        install_skill(&Some("# my own skill\n".to_owned()), skill),
        (HookOutcome::SkippedForeign, None)
    );
}

#[test]
fn an_edited_block_is_renewed_and_the_rest_is_kept() {
    let old = "# Mine\n\n<!-- roteiro-managed -->\n## Roteiro knowledge graph\nstale\n\
               <!-- roteiro-managed -->\n\nAfter.\n";
    let now = ensure_agents(old).expect("the block changed");
    assert!(now.starts_with("# Mine\n\n"));
    assert!(now.ends_with("After.\n"));
    assert!(!now.contains("stale"));
    assert_eq!(now.matches("<!-- roteiro-managed -->").count(), 2);
    assert_eq!(updated_agents(&now), now, "updating twice is updating once");
}

#[test]
fn a_managed_block_runs_from_its_opening_to_the_next_mark() {
    let range = |s: &str| managed_block_range(&s.chars().collect());
    let mark = "<!-- roteiro-managed -->";
    let line = "\n## Roteiro knowledge graph\n";
    assert_eq!(range(&format!("ab{mark}{line}x{mark}cd")), Some((2, 79)));
    // Lines may end as on Windows.
    assert_eq!(
        range(&format!("{mark}\r\n## Roteiro knowledge graph\r\nx{mark}")),
        Some((0, 79))
    );
    // Without the section's own first line, two marks and no more are a block.
    assert_eq!(range(&format!("a{mark}b{mark}c")), Some((1, 50)));
    assert_eq!(range(&format!("{mark}{line}x{mark}{line}y")), Some((0, 77)));
    assert_eq!(range(mark), None);
    assert_eq!(range(&format!("{mark}x{mark}y{mark}")), None);
    // A mark that opens nothing is passed over where a section follows.
    assert_eq!(
        range(&format!("{mark}{mark}{line}x{mark}")),
        Some((24, 101))
    );
    // An opening without an end is passed over too.
    assert_eq!(range(&format!("{mark}{line}x")), None);
    assert_eq!(
        range(&format!("{mark}{line}x{mark}{line}y{mark}")),
        Some((53, 130))
    );
}

#[test]
fn a_stray_mark_never_costs_the_notes_behind_it() {
    let line = "\n## Roteiro knowledge graph\n";
    for notes in [
        "<!-- roteiro-managed -->\nmy notes\n".to_owned(),
        "my <!-- roteiro-managed --> a <!-- roteiro-managed --> b <!-- roteiro-managed -->"
            .to_owned(),
        // Somebody deleted the end of the section.
        format!("<!-- roteiro-managed -->{line}my notes\n"),
    ] {
        let once = ensure_agents(&notes).expect("a section is added");
        assert!(once.starts_with(&notes), "{once}");
        assert_eq!(ensure_agents(&once), None, "the second update changes nothing");
        assert_eq!(updated_agents(&once), once);
    }
}

#[test]
fn two_marks_enclose_the_one_block() {
    let mark = "<!-- roteiro-managed -->";
    let line = "\n## Roteiro knowledge graph\n";
    for (before, inside, after) in [
        ("a", "b", "c"),
        ("# Mine\n\n", "\n## Another heading\nold text\n", "\n\nAfter.\n"),
        ("", "", ""),
        ("x", line, line),
    ] {
        let old = format!("{before}{mark}{inside}{mark}{after}");
        let once = ensure_agents(&old).expect("the block is renewed");
        assert_eq!(once, format!("{before}{}{after}", agents_section().trim_end()));
        assert_eq!(once.matches(mark).count(), 2);
        assert_eq!(ensure_agents(&once), None, "the second update changes nothing");
    }
    for old in ["", "notes", "notes\n"] {
        let once = ensure_agents(old).expect("a section is added");
        assert!(once.starts_with(old) && once.ends_with(&agents_section()));
        assert_eq!(once.matches(mark).count(), 2);
        assert_eq!(ensure_agents(&once), None);
    }
}

#[test]
fn the_freshness_hooks_differ_by_their_options_alone() {
    for fetch in [false, true] {
        let plain = hook_script("post-merge", fetch, false);
        let okf = hook_script("post-merge", fetch, true);
        assert_eq!(okf, format!("{plain}{}", okf_refresh()));
        for (text, with_okf) in [(&plain, false), (&okf, true)] {
            assert_eq!(text, &hook_script("post-commit", fetch, with_okf));
            assert_eq!(text.contains("gh release download"), fetch);
            assert_eq!(text.contains("\troteiro render okf >"), with_okf);
            assert!(text.contains("roteiro sync --committed"));
            assert!(!text.contains("; exit 0"));
        }
        let commit = hook_script("pre-commit", fetch, true);
        assert_eq!(commit, hook_script("pre-commit", false, false));
        for part in ["command -v roteiro", "roteiro check", "exit 1", "--no-verify"] {
            assert!(commit.contains(part), "{part}");
        }
        assert!(!commit.contains("roteiro sync") && !commit.contains("render okf"));
    }
}

#[test]
fn every_managed_hook_is_named_and_managed() {
    let names = managed_hooks();
    assert!(names.contains(&"post-checkout".to_owned()));
    assert!(names.contains(&"pre-commit".to_owned()));
    for name in &names {
        for fetch in [false, true] {
            for okf in [false, true] {
                assert!(is_managed_hook(&hook_script(name, fetch, okf)), "{name}");
            }
        }
    }
    assert!(hook_script("post-merge", false, true).ends_with(&okf_refresh()));
}
