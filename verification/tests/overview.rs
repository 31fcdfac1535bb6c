use roteiro::graph::{Provenance, Score};
use roteiro::names::NameMap;
use roteiro::overview::{
    build, esc, is_empty, render_html, render_text, short_rev, MatchInput, OverrideMatrix,
    SpokeInput, SpokePin,
};

fn score(x: f64) -> Score {
    Score {
        bits: x.to_bits(),
        shown: format!("{x:.2}"),
    }
}

fn hub_values(entries: &[(&str, &str)]) -> NameMap<String> {
    let mut m = NameMap::new();
    for (k, v) in entries {
        m.insert(k, (*v).to_owned());
    }
    m
}

fn matched(
    hub_key: &str,
    file: &str,
    spoke_key: &str,
    spoke_value: &str,
    confidence: f64,
    provenance: Provenance,
) -> MatchInput {
    MatchInput {
        hub_key: hub_key.to_owned(),
        file: file.to_owned(),
        spoke_key: spoke_key.to_owned(),
        spoke_value: spoke_value.to_owned(),
        confidence: score(confidence),
        provenance,
    }
}

fn spoke(name: &str, matches: Vec<MatchInput>, orphans: &[(&str, &str)]) -> SpokeInput {
    SpokeInput {
        name: name.to_owned(),
        matches,
        orphans: orphans
            .iter()
            .map(|(k, v)| ((*k).to_owned(), (*v).to_owned()))
            .collect(),
        pin: None,
    }
}

/// Resolved per spoke against the hub version each pins: two spokes on different
/// revs, one pinning nothing.
fn pinned_matrix() -> OverrideMatrix {
    let with = |name: &str, value: &str, pin: Option<SpokePin>| SpokeInput {
        pin,
        ..spoke(
            name,
            vec![matched(
                "serve.addr",
                "config.toml",
                "SERVE_ADDR",
                value,
                0.9,
                Provenance::Inferred,
            )],
            &[],
        )
    };
    build(
        "app",
        &hub_values(&[("serve.addr", "127.0.0.1:8017")]),
        vec![
            with(
                "deploy-a",
                "0.0.0.0:8443",
                Some(SpokePin {
                    rev: "0123456789abcdef0123456789abcdef01234567".to_owned(),
                    via: Some("submodule vendor/app".to_owned()),
                }),
            ),
            with(
                "deploy-b",
                "0.0.0.0:9000",
                Some(SpokePin {
                    rev: "v2.1.0".to_owned(),
                    via: None,
                }),
            ),
            with("deploy-c", "0.0.0.0:9100", None),
        ],
        true,
    )
}

#[test]
fn a_pinned_matrix_says_which_hub_version_each_spoke_was_measured_against() {
    let text = render_text(&pinned_matrix());
    assert!(text.contains("2 of 3 pinned one"), "{text}");
    // A sha is abbreviated, a tag is not.
    assert!(
        text.contains("deploy-a @ 0123456789 (via submodule vendor/app)"),
        "{text}"
    );
    assert!(text.contains("deploy-b @ v2.1.0"), "{text}");
    // Named, not omitted: absence would read as "not in the matrix".
    assert!(text.contains("deploy-c @ HEAD (no pin detected)"), "{text}");
}

#[test]
fn the_html_column_headers_carry_each_spokes_pin() {
    let html = render_html(&pinned_matrix());
    assert!(html.contains("@ 0123456789"), "{html}");
    assert!(
        html.contains("submodule vendor/app"),
        "sha's origin is the title attr"
    );
    assert!(html.contains("@ v2.1.0"), "{html}");
    assert!(
        html.contains("pin unpinned"),
        "the unpinned spoke is marked, not blank"
    );
}

#[test]
fn a_pinned_run_that_found_no_pins_still_says_it_asked() {
    let values = hub_values(&[("serve.addr", "127.0.0.1:8017")]);
    let unpinned = || {
        spoke(
            "deploy",
            vec![matched(
                "serve.addr",
                "config.toml",
                "SERVE_ADDR",
                "0.0.0.0:8443",
                0.9,
                Provenance::Inferred,
            )],
            &[],
        )
    };
    let asked = render_text(&build("app", &values, vec![unpinned()], true));
    let not_asked = render_text(&build("app", &values, vec![unpinned()], false));

    assert_ne!(asked, not_asked, "an inert --pinned must not be invisible");
    assert!(asked.contains("0 of 1 pinned one"), "{asked}");
    assert!(!not_asked.contains("pinned"), "{not_asked}");
}

fn matrix() -> OverrideMatrix {
    build(
        "app",
        &hub_values(&[("serve.addr", "127.0.0.1:8017"), ("serve.tools", "true")]),
        vec![spoke(
            "deploy",
            vec![
                // Differs: an override.
                matched(
                    "serve.addr",
                    "config.toml",
                    "SERVE_ADDR",
                    "0.0.0.0:8443",
                    0.9,
                    Provenance::Inferred,
                ),
                // The same: redundant.
                matched(
                    "serve.tools",
                    "config.toml",
                    "SERVE_TOOLS",
                    "true",
                    0.98,
                    Provenance::Inferred,
                ),
            ],
            &[("MAX_CONNECTIONS", "512")],
        )],
        false,
    )
}

#[test]
fn build_pivots_matches_into_rows_and_flags_real_overrides() {
    let m = matrix();
    assert_eq!(m.hub, "app");
    assert_eq!(m.spokes, vec!["deploy".to_owned()]);
    assert_eq!(m.rows.len(), 2);
    let addr = m.rows.iter().find(|r| r.hub_key == "serve.addr").unwrap();
    assert!(
        addr.cells.get("deploy").unwrap().differs,
        "different value is an override"
    );
    assert_eq!(addr.hub_value, "127.0.0.1:8017");
    let tools = m.rows.iter().find(|r| r.hub_key == "serve.tools").unwrap();
    assert!(
        !tools.cells.get("deploy").unwrap().differs,
        "equal value is redundant"
    );
    assert_eq!(m.drift.len(), 1);
    assert_eq!(m.drift[0].key, "MAX_CONNECTIONS");
    assert!(!is_empty(&m));
}

#[test]
fn a_redundant_restatement_never_hides_a_real_override() {
    let values = hub_values(&[("serve.addr", "127.0.0.1:8017")]);
    let same = || {
        matched(
            "serve.addr",
            "config.toml",
            "serve.addr",
            "127.0.0.1:8017",
            0.98,
            Provenance::Inferred,
        )
    };
    let over = || {
        matched(
            "serve.addr",
            "config.toml",
            "SERVE_ADDR",
            "0.0.0.0:8443",
            0.9,
            Provenance::Inferred,
        )
    };
    for matches in [vec![same(), over()], vec![over(), same()]] {
        let m = build("app", &values, vec![spoke("deploy", matches, &[])], false);
        let cell = m.rows[0].cells.get("deploy").unwrap();
        assert!(
            cell.differs,
            "override must survive a redundant restatement"
        );
        assert_eq!(cell.value, "0.0.0.0:8443");
    }
}

#[test]
fn build_carries_real_per_cell_provenance() {
    let m = build(
        "app",
        &hub_values(&[("serve.addr", "127.0.0.1:8017"), ("serve.tools", "true")]),
        vec![spoke(
            "deploy",
            vec![
                matched(
                    "serve.addr",
                    "config.toml",
                    "SERVE_ADDR",
                    "0.0.0.0:8443",
                    0.0, // authored links carry no score
                    Provenance::Authored,
                ),
                matched(
                    "serve.tools",
                    "config.toml",
                    "SERVE_TOOLS",
                    "false",
                    0.9,
                    Provenance::Inferred,
                ),
            ],
            &[],
        )],
        false,
    );
    let addr = m.rows.iter().find(|r| r.hub_key == "serve.addr").unwrap();
    let addr_cell = addr.cells.get("deploy").unwrap();
    assert_eq!(addr_cell.provenance, Provenance::Authored);
    let tools = m.rows.iter().find(|r| r.hub_key == "serve.tools").unwrap();
    assert_eq!(
        tools.cells.get("deploy").unwrap().provenance,
        Provenance::Inferred
    );
    // Its token is the stable lowercase one the UI colours by.
    assert_eq!(addr_cell.provenance.as_str(), "authored");
}

#[test]
fn build_carries_the_hub_source_file_onto_each_row() {
    let m = build(
        "app",
        &hub_values(&[
            ("serve.addr", "127.0.0.1:8017"),
            ("package.name", "roteiro"),
        ]),
        vec![spoke(
            "deploy",
            vec![
                matched(
                    "serve.addr",
                    "config.toml",
                    "SERVE_ADDR",
                    "0.0.0.0:8443",
                    0.9,
                    Provenance::Inferred,
                ),
                matched(
                    "package.name",
                    "Cargo.toml",
                    "PACKAGE_NAME",
                    "deploy",
                    0.9,
                    Provenance::Inferred,
                ),
            ],
            &[],
        )],
        false,
    );
    let app = m.rows.iter().find(|r| r.hub_key == "serve.addr").unwrap();
    assert_eq!(app.file, "config.toml");
    let tooling = m.rows.iter().find(|r| r.hub_key == "package.name").unwrap();
    assert_eq!(tooling.file, "Cargo.toml");
}

#[test]
fn a_hub_key_from_two_different_files_yields_an_ambiguous_empty_row_file() {
    let values = hub_values(&[("shared.key", "v")]);
    let m = |file: &str, spoke_key: &str| {
        matched("shared.key", file, spoke_key, "x", 0.9, Provenance::Inferred)
    };
    // Two spokes resolve the same hub key to different files; a third repeats the
    // first file — the row must stay ambiguous (empty) regardless.
    for matches in [
        vec![
            m("config.toml", "A"),
            m("Cargo.toml", "B"),
            m("config.toml", "C"),
        ],
        vec![m("Cargo.toml", "B"), m("config.toml", "A")],
    ] {
        let spokes = matches
            .into_iter()
            .enumerate()
            .map(|(i, mat)| spoke(&format!("spoke{i}"), vec![mat], &[]))
            .collect();
        let built = build("app", &values, spokes, false);
        let row = built
            .rows
            .iter()
            .find(|r| r.hub_key == "shared.key")
            .unwrap();
        assert_eq!(row.file, "", "conflicting files leave the row's file empty");
    }

    // A hub key seen in one consistent file keeps that file.
    let consistent = build(
        "app",
        &values,
        vec![
            spoke("a", vec![m("Cargo.toml", "A")], &[]),
            spoke("b", vec![m("Cargo.toml", "B")], &[]),
        ],
        false,
    );
    assert_eq!(consistent.rows[0].file, "Cargo.toml");
}

#[test]
fn render_html_is_self_contained_and_escapes() {
    let html = render_html(&matrix());
    assert!(html.starts_with("<!doctype html>"));
    assert!(html.contains("<style>"), "inline CSS, no external asset");
    assert!(!html.contains("href=\"style.css\""));
    assert!(html.contains("serve.addr") && html.contains("0.0.0.0:8443"));
    assert!(html.contains("MAX_CONNECTIONS"), "drift is shown");
    // The differing override is class `over`, the redundant one `same`.
    assert!(html.contains("cell over") && html.contains("cell same"));
}

#[test]
fn render_html_escapes_injected_markup() {
    let m = build("app", &hub_values(&[("k", "<v>")]), vec![], false);
    assert!(
        !render_html(&m).contains("<v>"),
        "hub value must be escaped"
    );

    let m = build(
        "<i>",
        &hub_values(&[("k", "<v>")]),
        vec![spoke(
            "<b>",
            vec![matched("k", "f", "<u>", "<w>", 0.9, Provenance::Inferred)],
            &[("<o>", "<p1>")],
        )],
        false,
    );
    let html = render_html(&m);
    for tag in ["<i>", "<v>", "<b>", "<u>", "<w>", "<o>", "<p1>"] {
        assert!(!html.contains(tag), "{tag} must be escaped");
    }
    assert_eq!(esc("<a href=\"x\">&'"), "&lt;a href=&quot;x&quot;&gt;&amp;&#39;");

    // What a confidence shows is text like any other.
    let mut odd = matched("k", "f", "K", "w", 0.9, Provenance::Inferred);
    odd.confidence.shown = "<c>".to_owned();
    let m = build("app", &hub_values(&[("k", "v")]), vec![spoke("a", vec![odd], &[])], false);
    let html = render_html(&m);
    assert!(!html.contains("<c>"), "{html}");
    assert!(html.contains("title=\"confidence\">&lt;c&gt;</span>"), "{html}");
}

#[test]
fn text_table_marks_overrides_and_lists_drift() {
    let t = render_text(&matrix());
    assert!(t.contains("serve.addr = 127.0.0.1:8017"));
    assert!(t.contains("≠ deploy: 0.0.0.0:8443"));
    assert!(t.contains("= deploy: true"));
    assert!(t.contains("drift") && t.contains("MAX_CONNECTIONS"));
}

#[test]
fn a_drift_key_set_by_multiple_spokes_is_one_row_with_a_cell_per_deploy() {
    let m = build(
        "app",
        &NameMap::new(),
        vec![
            spoke(
                "deploy-a",
                vec![],
                &[("dq.mode", "strict"), ("component", "ingest")],
            ),
            spoke("deploy-b", vec![], &[("dq.mode", "lax")]),
        ],
        false,
    );
    // `dq.mode` is set by two deploys: one row, not two.
    assert_eq!(
        m.drift.iter().filter(|d| d.key == "dq.mode").count(),
        1,
        "a drift key set by 2 deploys must collapse to a single row"
    );
    assert_eq!(m.drift.len(), 2);
    assert_eq!(m.drift[0].key, "component");
    assert_eq!(m.drift[1].key, "dq.mode");
    // Both deploys' differing values populate their own columns.
    let mode = m.drift.iter().find(|d| d.key == "dq.mode").unwrap();
    assert_eq!(mode.cells.len(), 2);
    assert_eq!(mode.cells.get("deploy-a").unwrap().value, "strict");
    assert_eq!(mode.cells.get("deploy-b").unwrap().value, "lax");
    // The single-deploy key stays its own row with just that deploy's column.
    let comp = m.drift.iter().find(|d| d.key == "component").unwrap();
    assert_eq!(comp.cells.len(), 1);
    assert_eq!(comp.cells.get("deploy-a").unwrap().value, "ingest");
    // Every drifting deploy is a matrix column.
    assert!(m.spokes.contains(&"deploy-a".to_owned()));
    assert!(m.spokes.contains(&"deploy-b".to_owned()));
}

#[test]
fn a_repeated_orphan_key_within_one_spoke_collapses_to_one_cell() {
    for orphans in [
        [("component", ""), ("component", "ingest")],
        [("component", "ingest"), ("component", "")],
    ] {
        let m = build(
            "app",
            &NameMap::new(),
            vec![spoke("deploy", vec![], &orphans)],
            false,
        );
        assert_eq!(m.drift.len(), 1);
        assert_eq!(m.drift[0].cells.len(), 1, "one deploy → one cell");
        let cell = m.drift[0].cells.get("deploy").unwrap();
        assert_eq!(cell.value, "ingest");
        assert!(!cell.conflict, "a blank restatement is not a conflict");
    }
}

#[test]
fn a_spoke_setting_one_drift_key_two_ways_is_a_deterministic_conflict_cell() {
    for orphans in [
        [("dq.mode", "strict"), ("dq.mode", "lax")],
        [("dq.mode", "lax"), ("dq.mode", "strict")],
    ] {
        let m = build(
            "app",
            &NameMap::new(),
            vec![spoke("deploy", vec![], &orphans)],
            false,
        );
        assert_eq!(m.drift.len(), 1);
        let cell = m.drift[0].cells.get("deploy").unwrap();
        assert!(cell.conflict, "two differing non-empty values → a conflict");
        // Deterministic sorted join — no value dropped, order-independent.
        assert_eq!(cell.value, "lax | strict");
    }

    // A consistent restatement of the same value is not a conflict.
    let m = build(
        "app",
        &NameMap::new(),
        vec![spoke(
            "deploy",
            vec![],
            &[("dq.mode", "strict"), ("dq.mode", "strict")],
        )],
        false,
    );
    let cell = m.drift[0].cells.get("deploy").unwrap();
    assert!(!cell.conflict);
    assert_eq!(cell.value, "strict");
}

#[test]
fn an_empty_matrix_says_so() {
    let m = build("app", &hub_values(&[("k", "v")]), vec![], false);
    assert!(is_empty(&m));
    assert!(m.rows.is_empty() && m.drift.is_empty());
    let drifting = build(
        "app",
        &NameMap::new(),
        vec![spoke("d", vec![], &[("x", "1")])],
        false,
    );
    assert!(!is_empty(&drifting));
}

#[test]
fn only_a_full_sha_is_abbreviated() {
    let sha = "0123456789abcdef0123456789abcdef01234567";
    assert_eq!(short_rev(sha), "0123456789");
    assert_eq!(short_rev("v2.1.0"), "v2.1.0");
    assert_eq!(short_rev(&sha[..39]), &sha[..39]);
    assert_eq!(short_rev(&format!("{}g", &sha[..39])), format!("{}g", &sha[..39]));
    // Upper-case digits count as well.
    assert_eq!(short_rev(&sha.to_uppercase()), "0123456789");
}
