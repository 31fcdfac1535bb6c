use roteiro::graph::Placeholder;
use roteiro::okf_discovery::{
    decide, discovered, note_text, prompt_text, referenced_peers, ConsentState, Discovered, Noted,
    OkfBundle, OkfDecision, OkfReport, Unasked, NOTE_LIMIT,
};

#[test]
fn a_peer_is_noted_once_per_process() {
    let mut noted = Noted::default();
    assert!(noted.should_note("acme"));
    assert!(!noted.should_note("acme"), "a reload must not reprint it");
    assert_eq!(noted.suppressed(), 0);
}

#[test]
fn beyond_the_limit_peers_are_counted_rather_than_named() {
    let mut noted = Noted::default();
    for i in 0..NOTE_LIMIT {
        assert!(noted.should_note(&format!("peer{i}")));
    }
    assert!(!noted.should_note("one-too-many"));
    assert!(!noted.should_note("two-too-many"));
    assert_eq!(
        noted.suppressed(),
        2,
        "the cap must account for what it did not print"
    );
}

fn placeholder(qualified: &str, project: Option<&str>) -> Placeholder {
    Placeholder {
        key: format!("extref:{qualified}"),
        qualified: Some(qualified.to_owned()),
        project: project.map(str::to_owned),
    }
}

fn bundle(peer: &str) -> OkfBundle {
    OkfBundle {
        peer: peer.to_owned(),
        bundle: format!("/ws/{peer}/okf"),
    }
}

fn found(screened: Result<OkfReport, String>, why: Option<&str>) -> Discovered {
    Discovered {
        bundle: bundle("acme"),
        state: ConsentState {
            why_asking: why.map(str::to_owned),
        },
        screened,
    }
}

fn report(read: usize, quarantined: usize, blocked: usize, classes: &[&str]) -> OkfReport {
    OkfReport {
        concepts_read: read,
        concepts_quarantined: quarantined,
        concepts_blocked: blocked,
        screen_classes: classes.iter().map(|c| (*c).to_owned()).collect(),
    }
}

#[test]
fn only_referenced_peers_are_raised_and_each_once() {
    let nodes = vec![
        placeholder("zeta::sym:a", Some("zeta")),
        placeholder("acme::sym:b", Some("acme")),
        placeholder("acme::sym:c", Some("acme")),
        placeholder("broken", None),
    ];
    assert_eq!(
        referenced_peers(&nodes),
        vec!["acme".to_owned(), "zeta".to_owned()]
    );
    let raised = discovered(&nodes, &vec![bundle("zeta"), bundle("other"), bundle("acme")]);
    let peers: Vec<&str> = raised.iter().map(|b| b.peer.as_str()).collect();
    assert_eq!(peers, vec!["zeta", "acme"]);
}

#[test]
fn a_summary_says_what_screening_found() {
    assert_eq!(
        found(Ok(report(4, 0, 0, &[])), None).summary(),
        "4 concept(s), screened clean"
    );
    assert_eq!(
        found(Ok(report(12, 3, 1, &["bidi", "zero-width"])), None).summary(),
        "12 concept(s), 3 quarantined, 1 blocked by the content screen [bidi, zero-width]"
    );
    let unread = found(Err("no index".to_owned()), None);
    assert_eq!(unread.summary(), "unreadable: no index");
    assert!(!unread.is_readable());
    assert!(unread.screen_classes().is_empty());
    assert_eq!(
        found(Ok(report(1, 1, 0, &["bidi"])), None).screen_classes(),
        vec!["bidi".to_owned()]
    );
}

#[test]
fn the_prompt_and_the_note_carry_the_same_facts() {
    let d = found(Ok(report(4, 0, 0, &[])), Some("its screening changed"));
    assert_eq!(
        prompt_text(&d),
        "\nacme publishes an OKF bundle, and this graph references it.\n\
         \n\
         bundle:   /ws/acme/okf\n\
         asking:   its screening changed\n\
         contains: 4 concept(s), screened clean\n\
         \n\
         Reading it puts acme's prose into this graph, where the model-facing\n\
         tools return it as grounding. Their confirmations are theirs, not ours.\n\
         \n\
         [t] trust       import at `external-<their tier>`, keeping what they claimed\n\
         [a] acknowledge import at `external-inferred`: their information, not their\n\
         \x20               confirmation\n\
         [i] ignore      leave the cross-repo placeholder as it is\n\
         \n"
    );
    let note = note_text(&found(Ok(report(4, 0, 0, &[])), None), Unasked::NoTerminal);
    assert_eq!(
        note,
        "roteiro: acme publishes an OKF bundle at /ws/acme/okf (4 concept(s), screened clean), \
         and it is undecided: not seen before. This run is not interactive, so it was \
         **ignored** and nothing was recorded — a graph does not adopt a stranger's concepts \
         because nobody was there to object. Decide it with `roteiro import --from okf \
         /ws/acme/okf` (add --trust to keep their tiers)."
    );
    assert_eq!(
        Unasked::Unreadable.as_str(),
        "The bundle could not be read, so there is nothing to decide"
    );
    assert_eq!(
        Unasked::NotWriting.as_str(),
        "This run does not write (`links` without `--write`)"
    );
    assert_eq!(
        Unasked::MachineOutput.as_str(),
        "This run emits `--json`, so there is nobody to ask"
    );
}

#[test]
fn only_a_known_word_grants() {
    assert_eq!(decide("t\n"), OkfDecision::Trust);
    assert_eq!(decide("  TRUST \n"), OkfDecision::Trust);
    assert_eq!(decide("a"), OkfDecision::Acknowledge);
    assert_eq!(decide("Ack\n"), OkfDecision::Acknowledge);
    assert_eq!(decide("acknowledge"), OkfDecision::Acknowledge);
    assert_eq!(decide(""), OkfDecision::Ignore);
    assert_eq!(decide("\n"), OkfDecision::Ignore);
    assert_eq!(decide("yes"), OkfDecision::Ignore);
    assert_eq!(decide("trusted"), OkfDecision::Ignore);
}
