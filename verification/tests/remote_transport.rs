use roteiro::remote_transport::{
    api_key, api_key_is_set, excerpt, fault_text, may_prompt, prompt_text, send_failure,
    status_failure, Endpoint, Reason, SendFault, API_KEY_ENV, TIMEOUT_SECS,
};

fn endpoint() -> Endpoint {
    Endpoint {
        url: "https://models.example/v1/chat/completions".to_owned(),
        model: "a-vendor-model".to_owned(),
        trust: "vendor_asserted".to_owned(),
    }
}

#[test]
fn a_send_failure_says_the_true_thing_about_why_nothing_came_back() {
    let timed_out = send_failure(&ureq::Error::Timeout(ureq::Timeout::Global));
    assert!(timed_out.contains(&TIMEOUT_SECS.to_string()), "{timed_out}");
    assert!(
        timed_out.contains("does not un-send it"),
        "the bytes are gone and the ledger already says so: {timed_out}"
    );

    // Everything else is reported in the transport's own words, with no invented
    // deadline attached.
    let refused = send_failure(&ureq::Error::Io(std::io::Error::new(
        std::io::ErrorKind::ConnectionRefused,
        "Connection refused",
    )));
    assert!(refused.contains("Connection refused"), "{refused}");
    assert!(
        !refused.contains(&TIMEOUT_SECS.to_string()),
        "an instant refusal did not wait for anything: {refused}"
    );

    // A name that will not resolve is a configuration error.
    let unresolved = send_failure(&ureq::Error::HostNotFound);
    assert!(unresolved.contains("[remote] endpoint"), "{unresolved}");
    assert!(unresolved.contains("rather than an outage"), "{unresolved}");

    assert_eq!(
        unresolved,
        fault_text(SendFault::HostNotFound, "host not found")
    );

    // And a refused redirect is explained as the policy it is.
    let redirected = send_failure(&ureq::Error::RedirectFailed);
    assert!(redirected.contains("consented to"), "{redirected}");
    assert!(redirected.contains("not followed"), "{redirected}");
    assert_eq!(
        redirected,
        fault_text(SendFault::RedirectFailed, "redirect failed")
    );
}

#[test]
fn a_fault_is_told_in_full() {
    assert_eq!(
        fault_text(SendFault::Timeout, "timeout: global"),
        "no response within 120s, so the call was abandoned. The request had already been sent \
         and is already in the ledger — a timeout does not un-send it"
    );
    assert_eq!(
        fault_text(SendFault::HostNotFound, "host not found"),
        "the host named by `[remote] endpoint` could not be resolved (host not found). That is \
         a configuration error rather than an outage"
    );
    assert_eq!(
        fault_text(SendFault::RedirectFailed, "redirect failed"),
        "the endpoint answered with a redirect, which is not followed (redirect failed): the \
         ledger records the endpoint that was consented to, and following the redirect would \
         make that record wrong about where the bytes went. Point `[remote] endpoint` at the \
         new URL deliberately"
    );
    assert_eq!(fault_text(SendFault::Other, "boom"), "boom");
}

#[test]
fn a_success_status_is_not_a_failure() {
    for status in [200, 201, 204, 299] {
        assert_eq!(status_failure(status, "{}"), None, "HTTP {status}");
    }
    for status in [199, 300] {
        assert!(
            status_failure(status, "{}").is_some(),
            "HTTP {status} is not a success"
        );
    }
}

#[test]
fn a_failure_status_quotes_what_the_endpoint_said() {
    let detail = status_failure(400, r#"{"error":{"message":"model `x` does not exist"}}"#)
        .expect("a failure");
    assert!(detail.contains("HTTP 400"), "{detail}");
    assert!(detail.contains("model `x` does not exist"), "{detail}");

    // An endpoint that explained nothing says so.
    let silent = status_failure(500, "   ").expect("a failure");
    assert!(silent.contains("sent no explanation"), "{silent}");

    // And a page of HTML is clipped rather than pasted whole.
    let huge = status_failure(502, &"x".repeat(5_000)).expect("a failure");
    assert!(huge.contains("…[truncated]"), "bounded");
    assert!(
        huge.len() < 600,
        "{} chars is not an error message",
        huge.len()
    );
}

#[test]
fn an_auth_failure_names_the_environment_variable() {
    for status in [401, 403] {
        let detail = status_failure(status, "unauthorized").expect("a failure");
        assert!(detail.contains(API_KEY_ENV), "HTTP {status}: {detail}");
        assert!(detail.contains("committed by design"), "{detail}");
    }
    // …and an unrelated failure does not, or the hint stops meaning anything.
    let other = status_failure(500, "boom").expect("a failure");
    assert!(!other.contains(API_KEY_ENV), "{other}");
}

#[test]
fn a_redirect_is_reported_as_a_refusal_with_its_reason() {
    let detail = status_failure(302, "").expect("a failure");
    assert!(detail.contains("Redirects are not followed"), "{detail}");
    assert!(detail.contains("consented to"), "{detail}");
}

#[test]
fn a_prompt_may_only_supply_the_invocation_half_of_consent() {
    assert!(
        may_prompt(Reason::InvocationUnset),
        "the run, not the human"
    );
    for reason in [
        Reason::Granted,
        Reason::ProjectDenied,
        Reason::InvocationDenied,
        Reason::UserLayerDenied,
        Reason::UserLayerUnset,
    ] {
        assert!(
            !may_prompt(reason),
            "{reason:?} must not be resolvable at a prompt"
        );
    }
}

#[test]
fn the_prompt_shows_the_exact_body_and_the_full_disclosure() {
    let body = "{\"messages\":[{\"role\":\"user\",\"content\":\"what changed? é\"}]}";
    let fields = vec!["instruction".to_owned(), "context.name".to_owned()];
    let disclosure = "There is no redaction chokepoint: a DATABASE_URL in a name leaves as it is.";
    let text = prompt_text(&endpoint(), body, &fields, disclosure);

    assert!(text.contains(body), "the exact bytes, verbatim");
    assert!(text.contains("https://models.example/v1/chat/completions"));
    assert!(text.contains("vendor_asserted"), "{text}");
    assert!(text.contains("no redaction chokepoint"), "{text}");
    assert!(text.contains("DATABASE_URL"), "{text}");
    assert!(
        text.contains(&format!(
            "carrying: instruction, context.name ({} bytes)",
            body.len()
        )),
        "{text}"
    );
}

#[test]
fn a_blank_credential_is_none() {
    assert_eq!(api_key(&None), None);
    assert_eq!(api_key(&Some(" \n".to_owned())), None);
    assert_eq!(api_key(&Some(" k3y\n".to_owned())), Some("k3y".to_owned()));
    assert!(!api_key_is_set(&Some("".to_owned())));
    assert!(api_key_is_set(&Some("x".to_owned())));
}

#[test]
fn an_excerpt_is_cut_by_characters() {
    let exact = "é".repeat(200);
    assert_eq!(excerpt(&exact), exact);
    assert_eq!(excerpt(&"é".repeat(201)), format!("{exact}…[truncated]"));
}
