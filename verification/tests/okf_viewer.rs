use roteiro::okf_viewer::{
    concept, escape, extension_mime, file_mime, graph_page, index, page, pill, unreadable,
    BundleView, ConceptRow, ConceptView, Flag, LinkOut, CSP,
};

#[test]
fn interpolated_text_is_escaped() {
    let out = escape(r#"<img src=x onerror="alert(1)">&'"#);
    assert!(!out.contains('<'), "{out}");
    assert!(!out.contains('>'), "{out}");
    assert!(!out.contains('"'), "{out}");
    assert_eq!(
        out,
        "&lt;img src=x onerror=&quot;alert(1)&quot;&gt;&amp;&#39;"
    );
}

#[test]
fn a_hostile_title_cannot_escape_the_shell() {
    let reply = page(
        "</title><script>alert(1)</script>",
        "/tmp/b",
        "",
        "<article/>",
    );
    assert!(!reply.html.contains("<script>alert"), "{}", reply.html);
}

fn row(id: &str, title: &str, trust: &str) -> ConceptRow {
    ConceptRow {
        id: id.to_owned(),
        title: title.to_owned(),
        kind: Some("Metric".to_owned()),
        trust: trust.to_owned(),
        status: "current".to_owned(),
    }
}

fn sample() -> BundleView {
    BundleView {
        root: "/tmp/bundle".to_owned(),
        concepts: vec![
            row("metrics/cost", "Cost", "unverified"),
            row("metrics/revenue", "Revenue", "human-reviewed"),
        ],
        human_reviewed: 1,
        machine_confirmed: 0,
        unverified: 1,
        broken_links: 0,
        okf_version: Some("0.2".to_owned()),
        flagged: Vec::new(),
    }
}

fn cost() -> ConceptView {
    ConceptView {
        title: "Cost".to_owned(),
        trust: "unverified".to_owned(),
        kind: None,
        status: "current".to_owned(),
        path: "metrics/cost.md".to_owned(),
        body_html: "<p>body</p>".to_owned(),
        screen: Vec::new(),
        links: vec![
            LinkOut {
                target: "metrics/revenue".to_owned(),
                exists: true,
            },
            LinkOut {
                target: "gone".to_owned(),
                exists: false,
            },
        ],
        backlinks: vec!["metrics/revenue".to_owned()],
    }
}

#[test]
fn the_index_lists_the_bundle_and_counts_its_tiers() {
    let reply = index(&Ok(sample()), "");
    assert_eq!(reply.status, 200);
    let body = reply.html;
    assert!(body.contains("Revenue"), "{body}");
    assert!(body.contains("href=\"/c/metrics/revenue\""), "{body}");
    assert!(
        body.contains("<li><span class=\"n\">1</span> human-reviewed</li>"),
        "{body}"
    );
    assert!(
        body.contains("<div class=\"group\">2 concept(s)</div>"),
        "{body}"
    );
    assert!(body.contains("<li>okf_version 0.2</li>"), "{body}");
    assert!(!body.contains("class=\"screened\""), "nothing was flagged");
}

#[test]
fn a_concept_renders_with_its_links_and_backlinks() {
    let reply = concept(&Ok(Some(cost())), "metrics/cost", "/tmp/bundle", "");
    assert_eq!(reply.status, 200);
    let body = reply.html;
    assert!(body.contains("href=\"/c/metrics/revenue\""), "{body}");
    assert!(body.contains("Linked from"), "{body}");
    assert!(
        body.contains("<li class=\"absent\">gone — not in this bundle</li>"),
        "{body}"
    );
    assert!(body.contains("<p>body</p>"), "{body}");
    assert!(
        body.contains(&pill("unverified", "unverified")),
        "the tier carries its word: {body}"
    );
}

#[test]
fn an_unknown_concept_is_a_404() {
    let reply = concept(&Ok(None), "metrics/<nope>", "/tmp/bundle", "");
    assert_eq!(reply.status, 404);
    assert_eq!(
        reply.html,
        "<p>The bundle contains no concept <code>metrics/&lt;nope&gt;</code>. \
         <a href=\"/\">Back to the bundle</a>.</p>"
    );
}

#[test]
fn a_nested_mount_prefixes_every_href() {
    let body = index(&Ok(sample()), "/okf").html;
    assert!(body.contains("href=\"/okf/c/metrics/revenue\""), "{body}");
    assert!(body.contains("href=\"/okf/okf-viewer.css\""), "{body}");
    assert!(body.contains("href=\"/okf/graph\""), "{body}");
    assert!(
        !body.contains("href=\"/c/"),
        "an unprefixed href would 404 when nested: {body}"
    );

    let lost = concept(&Ok(None), "metrics/nope", "/bundle", "/okf");
    assert_eq!(lost.status, 404);
    assert_eq!(
        lost.html,
        "<p>The bundle contains no concept <code>metrics/nope</code>. \
         <a href=\"/okf/\">Back to the bundle</a>.</p>"
    );
}

#[test]
fn responses_carry_a_content_security_policy() {
    for reply in [
        index(&Ok(sample()), ""),
        concept(&Ok(Some(cost())), "metrics/cost", "/tmp/bundle", ""),
        unreadable("no"),
    ] {
        assert!(reply.csp.contains("default-src 'self'"), "{}", reply.csp);
        assert!(reply.csp.contains("object-src 'none'"), "{}", reply.csp);
        assert_eq!(reply.csp, CSP);
    }
    let graph = graph_page("/tmp/bundle", "/okf");
    assert!(graph.csp.contains("script-src 'self' 'unsafe-inline'"));
    assert!(graph
        .html
        .contains("<script src=\"/okf/cytoscape.min.js\"></script>"));
    assert!(graph.html.contains("fetch('/okf/api/graph.json')"));
}

#[test]
fn a_path_that_is_not_a_bundle_is_refused() {
    let reply = index(&Err("no index.md".to_owned()), "");
    assert_eq!(reply.status, 404);
    assert_eq!(
        reply.html,
        "<p>Not a readable OKF bundle: no index.md</p>"
    );
    let reply = concept(&Err("gone".to_owned()), "x", "/tmp/bundle", "");
    assert_eq!(reply.status, 404);
    assert!(reply.html.contains("Not a readable OKF bundle: gone"));
}

#[test]
fn flagged_concepts_are_warned_of_with_their_classes() {
    let mut view = sample();
    view.okf_version = None;
    view.concepts[0].status = "deprecated".to_owned();
    view.flagged = vec![Flag {
        id: "metrics/cost".to_owned(),
        verdict: "quarantine".to_owned(),
        classes: vec!["bidi".to_owned(), "zero<width".to_owned()],
    }];
    let body = index(&Ok(view), "").html;
    assert!(
        body.contains("<strong>1 concept(s) tripped the content screener.</strong> This is"),
        "{body}"
    );
    assert!(
        body.contains("</a> — quarantine (<code>bidi</code>, <code>zero&lt;width</code>)</li>"),
        "{body}"
    );
    assert!(body.contains("<li>okf_version not declared</li>"));
    assert!(body.contains("<td class=\"status-deprecated\">deprecated</td>"));

    let mut view = cost();
    view.screen = vec!["bidi".to_owned()];
    view.kind = Some("Metric".to_owned());
    let body = concept(&Ok(Some(view)), "metrics/cost", "/r", "").html;
    assert!(body.contains("Classes: <code>bidi</code>.</div>"), "{body}");
    assert!(body.contains("<span>Metric</span><span>current</span><code>metrics/cost.md</code>"));
}

#[test]
fn a_file_is_typed_by_its_extension_from_a_closed_list() {
    assert_eq!(file_mime("/b/img/logo.SVG"), "image/svg+xml");
    assert_eq!(file_mime("a.png"), "image/png");
    assert_eq!(file_mime("a.b.jpeg"), "image/jpeg");
    assert_eq!(file_mime("a.jpg"), "image/jpeg");
    assert_eq!(file_mime("a.gif"), "image/gif");
    assert_eq!(file_mime("a.webp"), "image/webp");
    for other in ["index.html", "png", ".png", "a.png/", "a.", "..", ""] {
        let expected = std::path::Path::new(other)
            .extension()
            .and_then(|e| e.to_str())
            .map(str::to_owned);
        assert_eq!(file_mime(other), extension_mime(&expected), "{other}");
    }
    assert_eq!(file_mime("index.html"), "application/octet-stream");
    assert_eq!(extension_mime(&None), "application/octet-stream");
}
