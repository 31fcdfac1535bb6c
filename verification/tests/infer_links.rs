use roteiro::graph::{ConfigKey, Provenance, Score};
use roteiro::infer_links::{
    last_token, link_facts, match_against_hub, score, KeyMatch, SpelledKey, Tier,
};

/// A key with its two spellings, as the graph gives them: normalised, where every
/// run of other characters parts two segments; and canonical, where only a dot
/// does.
fn ck(key: &str, value: &str) -> SpelledKey {
    let lower = key.to_ascii_lowercase();
    let norm: Vec<&str> = lower
        .split(|c: char| !c.is_ascii_alphanumeric())
        .filter(|s| !s.is_empty())
        .collect();
    let canon: Vec<String> = lower
        .split('.')
        .map(|s| s.chars().filter(char::is_ascii_alphanumeric).collect())
        .collect();
    SpelledKey {
        own: ConfigKey {
            file: "f".into(),
            key: key.into(),
            value: value.into(),
        },
        norm: norm.join("."),
        canon: canon.join("."),
    }
}

fn confidence(m: &KeyMatch) -> f64 {
    f64::from_bits(m.confidence.bits)
}

#[test]
fn value_agreement_lifts_confidence_and_ambiguous_leaf_is_skipped() {
    let hub = vec![ck("serve.addr", "0.0.0.0:8443"), ck("db.addr", "x")];
    let spoke = vec![
        ck("SERVE_ADDR", "0.0.0.0:8443"), // full match + equal value → 0.98
        ck("addr", "y"),                  // ambiguous leaf (serve.addr/db.addr) → orphan
    ];
    let (m, orphans) = match_against_hub(&spoke, &hub);
    assert_eq!(m.len(), 1);
    assert_eq!(m[0].hub_key, "serve.addr");
    assert_eq!(m[0].hub_file, "f");
    assert!(confidence(&m[0]) >= 0.95);
    assert_eq!(orphans.len(), 1);
    assert_eq!(orphans[0].key, "addr");
}

#[test]
fn camel_snake_kebab_bridge_the_naming_convention_gap() {
    let hub = vec![
        ck("zerobus.server_endpoint", "grpc://z:443"),
        ck("zerobus.workspace_url", "https://w"),
    ];
    let spoke = vec![
        ck("zerobus.serverEndpoint", "grpc://z:443"), // camelCase, value agrees
        ck("zerobus.workspace-url", "https://w"),     // kebab-case, value agrees
    ];
    let (m, orphans) = match_against_hub(&spoke, &hub);
    assert!(orphans.is_empty(), "both bridge the gap: {orphans:?}");
    assert_eq!(m.len(), 2);
    // Original key names are preserved verbatim (normalisation is match-only).
    let camel = m
        .iter()
        .find(|k| k.spoke_key == "zerobus.serverEndpoint")
        .unwrap();
    assert_eq!(camel.hub_key, "zerobus.server_endpoint");
    assert!(
        confidence(camel) >= 0.9,
        "value agreement lifts it: {camel:?}"
    );
    let kebab = m
        .iter()
        .find(|k| k.spoke_key == "zerobus.workspace-url")
        .unwrap();
    assert_eq!(kebab.hub_key, "zerobus.workspace_url");
}

#[test]
fn exact_match_takes_precedence_over_a_canonical_one() {
    let hub = vec![
        ck("zerobus.server_endpoint", "grpc://z:443"),
        ck("zerobus.serverEndpoint", "grpc://other:443"),
    ];
    let spoke = vec![ck("zerobus.server_endpoint", "grpc://z:443")];
    let (m, orphans) = match_against_hub(&spoke, &hub);
    assert!(orphans.is_empty());
    assert_eq!(m.len(), 1);
    assert_eq!(
        m[0].hub_key, "zerobus.server_endpoint",
        "exact spelling wins"
    );
    assert!(
        confidence(&m[0]) >= 0.98,
        "exact + value agreement: {:?}",
        m[0]
    );
}

#[test]
fn a_hub_absent_key_is_still_reported_as_drift() {
    let hub = vec![ck("zerobus.server_endpoint", "grpc://z:443")];
    let spoke = vec![ck(
        "zerobus.delta_table_properties.delta.enableChangeDataFeed",
        "true",
    )];
    let (m, orphans) = match_against_hub(&spoke, &hub);
    assert!(m.is_empty(), "no fabricated match: {m:?}");
    assert_eq!(orphans.len(), 1);
    assert_eq!(
        orphans[0].key,
        "zerobus.delta_table_properties.delta.enableChangeDataFeed"
    );
}

#[test]
fn an_ambiguous_canonical_collision_produces_no_wrong_link() {
    let hub = vec![
        ck("zerobus.server_endpoint", "grpc://snake"),
        ck("zerobus.server-endpoint", "grpc://kebab"),
    ];
    // camelCase spelling: no exact hub hit, canonical collides on two distinct
    // hub keys, so there is no link.
    let spoke = vec![ck("zerobus.serverEndpoint", "grpc://camel")];
    let (m, orphans) = match_against_hub(&spoke, &hub);
    assert!(m.is_empty(), "ambiguous collision must not link: {m:?}");
    assert_eq!(orphans.len(), 1);
    assert_eq!(orphans[0].key, "zerobus.serverEndpoint");
}

#[test]
fn link_facts_builds_an_external_ref_and_inferred_edge_per_match() {
    let stamp = "links:inferred";
    let m = KeyMatch {
        spoke_key: "SERVE_ADDR".into(),
        spoke_file: "prod.env".into(),
        hub_key: "serve.addr".into(),
        hub_file: "config.toml".into(),
        confidence: Score {
            bits: 0.9f64.to_bits(),
            shown: "0.90".into(),
        },
    };
    let facts = link_facts("app", &vec![m], stamp);
    // One external-ref node standing in for the hub key.
    assert_eq!(facts.nodes.len(), 1);
    assert_eq!(
        facts.nodes[0].key,
        "extref:app::cfgkey:config.toml#serve.addr"
    );
    // One inferred edge from the spoke's config-key node to it, with the stamp.
    assert_eq!(facts.edges.len(), 1);
    let e = &facts.edges[0];
    assert_eq!(e.src, "cfgkey:prod.env#SERVE_ADDR");
    assert_eq!(e.dst, "extref:app::cfgkey:config.toml#serve.addr");
    assert_eq!(
        e.confidence.as_ref().map(|c| f64::from_bits(c.bits)),
        Some(0.9)
    );
    assert_eq!(e.src_ref.as_deref(), Some(stamp));
    assert_eq!(e.provenance, Provenance::Inferred);
    assert_eq!(e.kind, "references");
}

#[test]
fn each_tier_has_its_score() {
    let expected = [
        (Tier::Exact { agrees: true }, 0.98, "0.98"),
        (Tier::Exact { agrees: false }, 0.9, "0.90"),
        (Tier::Canonical { agrees: true }, 0.95, "0.95"),
        (Tier::Canonical { agrees: false }, 0.85, "0.85"),
        (Tier::Leaf, 0.55, "0.55"),
    ];
    for (tier, value, shown) in expected {
        let s = score(tier);
        assert_eq!(f64::from_bits(s.bits), value);
        assert_eq!(s.shown, shown);
        assert_eq!(s.shown, format!("{value:.2}"));
    }
}

#[test]
fn a_lone_leaf_is_the_weakest_hint() {
    let hub = vec![ck("serve.addr", "a")];
    let (m, orphans) = match_against_hub(&vec![ck("other.addr", "a")], &hub);
    assert!(orphans.is_empty());
    assert_eq!(confidence(&m[0]), 0.55);
    // Every key is either matched or an orphan, in order.
    let spoke = vec![ck("x.addr", "a"), ck("nope", "b"), ck("SERVE-ADDR", "z")];
    let (m, orphans) = match_against_hub(&spoke, &hub);
    assert_eq!(m.len() + orphans.len(), 3);
    assert_eq!(m[1].spoke_key, "SERVE-ADDR");
    assert_eq!(confidence(&m[1]), 0.9);
}

#[test]
fn one_key_in_two_files_is_no_collision() {
    let mut other = ck("a.bC", "1");
    other.own.file = "g".into();
    let hub = vec![ck("a.bC", "1"), other];
    let (m, _) = match_against_hub(&vec![ck("a.b_c", "2")], &hub);
    assert_eq!(m.len(), 1);
    assert_eq!(m[0].hub_file, "f", "the first listed stands for it");
    assert_eq!(confidence(&m[0]), 0.85);
}

#[test]
fn the_last_token_is_what_follows_the_last_dot() {
    for (s, t) in [("a.b.c", "c"), ("a", "a"), ("", ""), ("a.", "")] {
        assert_eq!(last_token(s), t);
        assert_eq!(last_token(s), s.rsplit('.').next().unwrap());
    }
}
