use roteiro::graph::{Node, NodeClass, Provenance};
use roteiro::remote_engine::{
    classify, ground, grounding_keys, payload_for, ChatRequest, CompletionStats, EngineError,
    Message, RemoteBackedEngine, RemoteError, RemoteFault, Route, ASK_CONTEXT_NODES,
};
use roteiro::remote_transport::Endpoint;

fn engine() -> RemoteBackedEngine {
    RemoteBackedEngine::new(Endpoint {
        url: "http://127.0.0.1:1/v1/chat/completions".to_owned(),
        model: "a-vendor-model".to_owned(),
        trust: "vendor_asserted".to_owned(),
    })
}

fn ask(model: &str, turns: &[(&str, &str)]) -> ChatRequest {
    ChatRequest {
        model: model.to_owned(),
        messages: turns
            .iter()
            .map(|(role, content)| Message {
                role: (*role).to_owned(),
                content: (*content).to_owned(),
            })
            .collect(),
        images: Vec::new(),
        audio: Vec::new(),
    }
}

fn failure(fault: RemoteFault, text: &str) -> RemoteError {
    RemoteError {
        fault,
        text: text.to_owned(),
    }
}

#[test]
fn a_local_model_id_is_delegated_untouched() {
    let e = engine();
    assert!(matches!(
        e.chat_stream(&ask("qwen3-0.6b", &[("user", "what is this?")])),
        Route::Local
    ));
    assert!(e.carries_tools("qwen3-0.6b", true));
    assert!(!e.carries_tools("qwen3-0.6b", false));
    assert!(!e.carries_tools("a-vendor-model", true));
}

#[test]
fn a_shut_gate_refuses_and_does_not_answer_from_the_local_model() {
    let e = engine();
    let route = e.chat_stream(&ask("a-vendor-model", &[("user", "what is this?")]));
    assert!(matches!(route, Route::Send(s) if s == "what is this?"));
    let shut = failure(
        RemoteFault::NotConsented,
        "the remote tier is not enabled for this run",
    );
    let err = e.answered(&Err(shut)).expect_err("refused");
    assert!(matches!(err, EngineError::InvalidRequest(_)), "{err:?}");
    assert_eq!(err.status(), 400);
    assert!(
        err.message().contains("not enabled for this run"),
        "{err:?}"
    );
}

#[test]
fn a_refused_gate_is_a_client_error_and_the_rest_keep_their_classes() {
    let refused = classify(&failure(
        RemoteFault::NotConsented,
        "not enabled for this run",
    ));
    assert!(
        matches!(refused, EngineError::InvalidRequest(_)),
        "{refused:?}"
    );
    assert!(refused.message().contains("not enabled for this run"));

    let no_backend = classify(&failure(RemoteFault::NoTransport, "no backend"));
    assert!(
        matches!(no_backend, EngineError::Unsupported(_)),
        "{no_backend:?}"
    );
    assert_eq!(no_backend.status(), 501);

    let unreachable = classify(&failure(
        RemoteFault::Transport,
        "connection refused; it did **not** fall back",
    ));
    assert!(
        matches!(unreachable, EngineError::Inference(_)),
        "{unreachable:?}"
    );
    assert_eq!(unreachable.status(), 500);
    assert!(unreachable.message().contains("did **not** fall back"));

    for fault in [
        RemoteFault::Ledger,
        RemoteFault::Response,
        RemoteFault::Other,
    ] {
        assert_eq!(classify(&failure(fault, "x")).status(), 500, "{fault:?}");
    }
    assert_eq!(classify(&failure(RemoteFault::Payload, "x")).status(), 400);
}

#[test]
fn the_hosted_model_leads_and_the_local_models_remain() {
    let e = engine();
    let ids = e.models(&vec!["qwen3-0.6b".to_owned()]);
    assert_eq!(ids, vec!["a-vendor-model", "qwen3-0.6b"]);
    assert_eq!(e.endpoint.model, "a-vendor-model");
}

#[test]
fn only_the_user_turns_reach_the_payload() {
    let req = ask(
        "a-vendor-model",
        &[
            ("system", "you are a helpful assistant"),
            ("user", "what does the store do?"),
            (
                "assistant",
                "it holds Store::apply_import_layer and friends",
            ),
            ("tool", "{\"secret_from_a_tool\":\"hunter2\"}"),
            ("user", "and how is it tested?"),
        ],
    );
    let instruction = payload_for(&req).expect("assembles");
    assert_eq!(
        instruction,
        "what does the store do?\n\nand how is it tested?"
    );
    for dropped in [
        "helpful assistant",
        "apply_import_layer",
        "secret_from_a_tool",
        "hunter2",
    ] {
        assert!(
            !instruction.contains(dropped),
            "`{dropped}` is not a user turn but reached the instruction: {instruction}"
        );
    }
}

#[test]
fn a_request_with_no_user_turn_is_refused_with_its_reason() {
    let err = payload_for(&ask(
        "a-vendor-model",
        &[("assistant", "I already answered that")],
    ))
    .expect_err("no question");
    assert!(matches!(err, EngineError::InvalidRequest(_)), "{err:?}");
    assert!(err.message().contains("not forwarded"), "{err:?}");
    // A blank question is no question.
    assert!(payload_for(&ask("a-vendor-model", &[("user", " \n ")])).is_err());
}

#[test]
fn attached_media_is_refused_rather_than_sent() {
    let mut req = ask("a-vendor-model", &[("user", "describe this")]);
    req.images = vec![vec![0x89, b'P', b'N', b'G']];
    let err = payload_for(&req).expect_err("images are not sendable");
    assert!(matches!(err, EngineError::InvalidRequest(_)), "{err:?}");
    assert!(err.message().contains("text only"), "{err:?}");
    assert!(matches!(
        engine().chat_stream(&req),
        Route::Refused(EngineError::InvalidRequest(_))
    ));
    let mut heard = ask("a-vendor-model", &[("user", "transcribe this")]);
    heard.audio = vec![vec![1]];
    assert!(payload_for(&heard).is_err());
}

#[test]
fn an_answer_comes_in_one_piece_without_invented_counts() {
    let (text, stats) = engine()
        .answered(&Ok("forty-two".to_owned()))
        .expect("answered");
    assert_eq!(text, "forty-two");
    assert_eq!(
        stats,
        CompletionStats {
            prompt_tokens: 0,
            completion_tokens: 0,
            finished: true
        }
    );
}

#[test]
fn grounding_is_bounded_and_symbols_come_first() {
    let symbols: Vec<String> = (0..10).map(|i| format!("sym:{i}")).collect();
    let docs: Vec<String> = (0..10).map(|i| format!("doc:{i}")).collect();
    let keys = grounding_keys(&symbols, &docs);
    assert_eq!(keys.len(), ASK_CONTEXT_NODES);
    assert_eq!(keys[9], "sym:9");
    assert_eq!(keys[10], "doc:0");
    assert_eq!(keys[11], "doc:1");
    let few = grounding_keys(&vec!["a".to_owned()], &vec!["b".to_owned()]);
    assert_eq!(few, vec!["a".to_owned(), "b".to_owned()]);
    let many: Vec<String> = (0..20).map(|i| format!("sym:{i}")).collect();
    assert_eq!(grounding_keys(&many, &docs), many[..12].to_vec());
}

#[test]
fn what_could_not_be_read_grounds_nothing() {
    let node = Node {
        key: "sym:a".to_owned(),
        name: "a".to_owned(),
        kind: "fn".to_owned(),
        class: NodeClass::Other,
        provenance: Provenance::Derived,
        path: None,
    };
    let found = ground(&Some(vec![None, Some(node.clone()), None]));
    assert_eq!(found.len(), 1);
    assert_eq!(found[0].key, "sym:a");
    assert!(ground(&None).is_empty());
}
