use roteiro::explorer_app::{route, shell, Asset, TOKENS_MARKER};

#[test]
fn each_path_has_its_asset() {
    assert_eq!(route("/"), Some(Asset::Shell));
    assert_eq!(route("/explorer"), Some(Asset::Shell));
    assert_eq!(route("/app.js"), Some(Asset::App));
    assert_eq!(
        route("/vendor/cytoscape.min.js"),
        Some(Asset::GraphLibrary)
    );
    assert_eq!(route("/sticker.svg"), Some(Asset::Logo));
    assert_eq!(route("/api/graph"), None);
    assert_eq!(route("/app.js/"), None);
}

#[test]
fn each_asset_has_its_headers() {
    assert_eq!(Asset::Shell.content_type(), "text/html; charset=utf-8");
    assert_eq!(Asset::Shell.cache_control(), "public, max-age=300");
    for script in [Asset::App, Asset::GraphLibrary] {
        assert_eq!(script.content_type(), "text/javascript; charset=utf-8");
        assert_eq!(script.cache_control(), "public, max-age=3600");
    }
    assert_eq!(Asset::Logo.content_type(), "image/svg+xml; charset=utf-8");
    assert_eq!(Asset::Logo.cache_control(), "public, max-age=3600");
}

#[test]
fn the_palette_takes_the_place_of_the_marker() {
    let template = format!("<style>{TOKENS_MARKER} body {{}}</style>");
    assert_eq!(
        shell(&template, ":root { --bg: #fff }"),
        "<style>:root { --bg: #fff } body {}</style>"
    );
    // A template without a marker is served as it is.
    assert_eq!(shell("<html>", "x"), "<html>");
    // As many as there are.
    let twice = format!("{TOKENS_MARKER}|{TOKENS_MARKER}");
    assert_eq!(shell(&twice, "y"), twice.replace(TOKENS_MARKER, "y"));
}
