//! Asking the hosted model. A chat request is reduced before it leaves: only the
//! person's own turns travel, and the graph reaches the endpoint as a bounded
//! list of nodes, never as a transcript.
use vstd::prelude::*;

use crate::graph::Node;
use crate::remote_transport::Endpoint;
use crate::seqs::{picked, picked_adds_up, picked_facts, picked_of_filter, picked_step};
use crate::text::{join, join_of, same, trim, trim_of, views};

verus! {

/// How many graph nodes a question may be grounded on.
pub const ASK_CONTEXT_NODES: usize = 12;

// ---------------------------------------------------------------------------
// Requests and failures
// ---------------------------------------------------------------------------

/// One turn of a conversation.
#[derive(Debug)]
pub struct Message {
    pub role: String,
    pub content: String,
}

/// A chat request, as far as it decides anything here.
#[derive(Debug)]
pub struct ChatRequest {
    pub model: String,
    pub messages: Vec<Message>,
    pub images: Vec<Vec<u8>>,
    pub audio: Vec<Vec<u8>>,
}

/// A failure, by the answer it is given.
#[derive(Debug)]
pub enum EngineError {
    /// Answered 400: this request is refused.
    InvalidRequest(String),
    /// Answered 501: a capability that is not there.
    Unsupported(String),
    /// Answered 500: something failed on this side or above it.
    Inference(String),
}

impl EngineError {
    /// What the failure says.
    pub open spec fn text(self) -> Seq<char> {
        match self {
            EngineError::InvalidRequest(t) => t@,
            EngineError::Unsupported(t) => t@,
            EngineError::Inference(t) => t@,
        }
    }

    /// The HTTP status it is answered with.
    pub open spec fn status_of(self) -> u16 {
        match self {
            EngineError::InvalidRequest(_) => 400,
            EngineError::Unsupported(_) => 501,
            EngineError::Inference(_) => 500,
        }
    }

    /// What the failure says.
    pub fn message(&self) -> (r: &str)
        ensures
            r@ == self.text(),
    {
        match self {
            EngineError::InvalidRequest(t) => t.as_str(),
            EngineError::Unsupported(t) => t.as_str(),
            EngineError::Inference(t) => t.as_str(),
        }
    }

    /// The HTTP status it is answered with.
    pub fn status(&self) -> (r: u16)
        ensures
            r == self.status_of(),
    {
        match self {
            EngineError::InvalidRequest(_) => 400,
            EngineError::Unsupported(_) => 501,
            EngineError::Inference(_) => 500,
        }
    }
}

/// What went wrong on the way to the hosted model.
#[derive(Debug, Clone, Copy, PartialEq, Eq, Structural)]
pub enum RemoteFault {
    /// Consent was not given.
    NotConsented,
    /// This build cannot reach an endpoint.
    NoTransport,
    /// The endpoint could not be reached.
    Transport,
    /// The call could not be recorded, so it was not made.
    Ledger,
    /// What would leave is not allowed to.
    Payload,
    /// The endpoint's answer cannot be used.
    Response,
    /// Anything else.
    Other,
}

/// A failure on the way to the hosted model.
#[derive(Debug)]
pub struct RemoteError {
    pub fault: RemoteFault,
    pub text: String,
}

/// The answer a remote failure is given. A refusal is no breakage, and what is
/// not known is taken for one.
pub open spec fn class_of(fault: RemoteFault) -> u16 {
    match fault {
        RemoteFault::NotConsented => 400,
        RemoteFault::Payload => 400,
        RemoteFault::NoTransport => 501,
        RemoteFault::Transport => 500,
        RemoteFault::Ledger => 500,
        RemoteFault::Response => 500,
        RemoteFault::Other => 500,
    }
}

/// The answer a remote failure is given, in its own words.
pub fn classify(err: &RemoteError) -> (r: EngineError)
    ensures
        r.status_of() == class_of(err.fault),
        r.text() == err.text@,
{
    let text = err.text.clone();
    match err.fault {
        RemoteFault::NotConsented => EngineError::InvalidRequest(text),
        RemoteFault::Payload => EngineError::InvalidRequest(text),
        RemoteFault::NoTransport => EngineError::Unsupported(text),
        RemoteFault::Transport => EngineError::Inference(text),
        RemoteFault::Ledger => EngineError::Inference(text),
        RemoteFault::Response => EngineError::Inference(text),
        RemoteFault::Other => EngineError::Inference(text),
    }
}

// ---------------------------------------------------------------------------
// What may leave
// ---------------------------------------------------------------------------

/// Why media is refused.
pub const TEXT_ONLY: &'static str =
    "the remote model tier carries text only: images and audio are not on \
ADR-0019's payload allow-list, and Roteiro will not send bytes it cannot \
show you in a dry-run";

/// Why a request without a question is refused.
pub const NO_QUESTION: &'static str =
    "a remote Ask needs a question in a `user` message: assistant turns and tool \
results are deliberately not forwarded to the hosted model (ADR-0019 §4)";

/// What a turn contributes: a person's own words, trimmed, where there are any.
pub open spec fn asked() -> spec_fn(Message) -> Option<Seq<char>> {
    |m: Message|
        if m.role@ == "user"@ && trim_of(m.content@).len() > 0 {
            Some(trim_of(m.content@))
        } else {
            None
        }
}

/// The instruction that a conversation is reduced to.
pub open spec fn instruction_of(messages: Seq<Message>) -> Seq<char> {
    join_of(picked(messages, asked()), "\n\n"@)
}

/// The instruction that a conversation is reduced to.
pub fn instruction(messages: &Vec<Message>) -> (r: String)
    ensures
        r@ == instruction_of(messages@),
{
    let mut turns: Vec<String> = Vec::new();
    let mut i: usize = 0;
    assert(views(turns@) =~= picked(messages@.take(0), asked()));
    while i < messages.len()
        invariant
            i <= messages@.len(),
            views(turns@) == picked(messages@.take(i as int), asked()),
        decreases messages@.len() - i,
    {
        proof {
            picked_step(messages@, asked(), i as int);
        }
        let m = &messages[i];
        if same(m.role.as_str(), "user") {
            let words = trim(m.content.as_str());
            if words.as_str().unicode_len() > 0 {
                let ghost was = turns@;
                turns.push(words);
                assert(views(turns@) =~= views(was).push(words@));
            }
        }
        i = i + 1;
    }
    assert(messages@.take(messages@.len() as int) =~= messages@);
    join(&turns, "\n\n")
}

/// The instruction of a request, or why it may not leave.
pub fn payload_for(req: &ChatRequest) -> (r: Result<String, EngineError>)
    ensures
        match r {
            Ok(s) => req.images@.len() == 0 && req.audio@.len() == 0 && instruction_of(
                req.messages@,
            ).len() > 0 && s@ == instruction_of(req.messages@),
            Err(e) => e.status_of() == 400 && (if req.images@.len() > 0 || req.audio@.len() > 0 {
                e.text() == TEXT_ONLY@
            } else {
                instruction_of(req.messages@).len() == 0 && e.text() == NO_QUESTION@
            }),
        },
{
    if req.images.len() > 0 || req.audio.len() > 0 {
        return Err(EngineError::InvalidRequest(TEXT_ONLY.to_owned()));
    }
    let s = instruction(&req.messages);
    if s.as_str().unicode_len() == 0 {
        return Err(EngineError::InvalidRequest(NO_QUESTION.to_owned()));
    }
    Ok(s)
}

/// At most the first [`ASK_CONTEXT_NODES`] of these.
pub open spec fn within_budget(keys: Seq<Seq<char>>) -> Seq<Seq<char>> {
    if keys.len() > ASK_CONTEXT_NODES {
        keys.take(ASK_CONTEXT_NODES as int)
    } else {
        keys
    }
}

/// The keys a question is grounded on: symbols before documents, within the
/// budget.
pub fn grounding_keys(symbols: &Vec<String>, docs: &Vec<String>) -> (r: Vec<String>)
    ensures
        views(r@) == within_budget(views(symbols@) + views(docs@)),
        r@.len() <= ASK_CONTEXT_NODES,
{
    let ghost all = views(symbols@) + views(docs@);
    let mut r: Vec<String> = Vec::new();
    let mut i: usize = 0;
    while i < symbols.len() && r.len() < ASK_CONTEXT_NODES
        invariant
            i <= symbols@.len(),
            r@.len() == i,
            i <= ASK_CONTEXT_NODES,
            all == views(symbols@) + views(docs@),
            views(r@) =~= all.take(i as int),
        decreases symbols@.len() - i,
    {
        let ghost was = r@;
        r.push(symbols[i].clone());
        assert(views(r@) =~= views(was).push(symbols@[i as int]@));
        assert(symbols@[i as int]@ == all[i as int]);
        i = i + 1;
    }
    let mut j: usize = 0;
    while j < docs.len() && r.len() < ASK_CONTEXT_NODES
        invariant
            i <= symbols@.len(),
            i < symbols@.len() ==> r@.len() == ASK_CONTEXT_NODES,
            j <= docs@.len(),
            r@.len() == i + j,
            r@.len() <= ASK_CONTEXT_NODES,
            all == views(symbols@) + views(docs@),
            views(r@) =~= all.take(i + j),
        decreases docs@.len() - j,
    {
        let ghost was = r@;
        r.push(docs[j].clone());
        assert(views(r@) =~= views(was).push(docs@[j as int]@));
        assert(docs@[j as int]@ == all[i + j]);
        j = j + 1;
    }
    assert(views(r@) =~= within_budget(all));
    r
}

/// The nodes that were found.
pub open spec fn present() -> spec_fn(Option<Node>) -> Option<Node> {
    |n: Option<Node>| n
}

/// The nodes a question is grounded on, given what was read for each key. Where
/// reading failed there are none: less is disclosed, and the question is still
/// asked.
pub fn ground(found: &Option<Vec<Option<Node>>>) -> (r: Vec<Node>)
    ensures
        r@ == (match found {
            Some(nodes) => picked(nodes@, present()),
            None => Seq::empty(),
        }),
{
    let mut r: Vec<Node> = Vec::new();
    if let Some(nodes) = found {
        let mut i: usize = 0;
        assert(r@ =~= picked(nodes@.take(0), present()));
        while i < nodes.len()
            invariant
                i <= nodes@.len(),
                r@ == picked(nodes@.take(i as int), present()),
            decreases nodes@.len() - i,
        {
            proof {
                picked_step(nodes@, present(), i as int);
            }
            if let Some(n) = &nodes[i] {
                r.push(n.clone());
            }
            i = i + 1;
        }
        assert(nodes@.take(nodes@.len() as int) =~= nodes@);
    }
    r
}

// ---------------------------------------------------------------------------
// The engine
// ---------------------------------------------------------------------------

/// The accounting of an answer.
#[derive(Debug, Clone, Copy, PartialEq, Eq, Structural)]
pub struct CompletionStats {
    pub prompt_tokens: usize,
    pub completion_tokens: usize,
    /// It stopped by itself.
    pub finished: bool,
}

/// What is done with a request.
#[derive(Debug)]
pub enum Route {
    /// The local engine answers it.
    Local,
    /// It is refused; no other model answers in its place.
    Refused(EngineError),
    /// This instruction is sent to the hosted model.
    Send(String),
}

/// The served engine with a hosted model beside it. The endpoint's model string
/// is the hosted model's served id.
#[derive(Debug)]
pub struct RemoteBackedEngine {
    pub endpoint: Endpoint,
}

impl RemoteBackedEngine {
    /// Serves the endpoint's model beside the local ones.
    pub fn new(endpoint: Endpoint) -> (r: Self)
        ensures
            r.endpoint == endpoint,
    {
        RemoteBackedEngine { endpoint }
    }

    /// Whether a request for `model` carries its own tools. One for the hosted
    /// model never does.
    pub fn carries_tools(&self, model: &str, local: bool) -> (r: bool)
        ensures
            r == (model@ != self.endpoint.model@ && local),
    {
        !same(model, self.endpoint.model.as_str()) && local
    }

    /// The served models: the hosted one first, then the local ones.
    pub fn models(&self, local: &Vec<String>) -> (r: Vec<String>)
        ensures
            views(r@) == seq![self.endpoint.model@] + views(local@),
    {
        let mut r: Vec<String> = Vec::new();
        r.push(self.endpoint.model.clone());
        let ghost all = views(local@);
        let ghost hosted = seq![self.endpoint.model@];
        assert(views(r@) =~= hosted + all.take(0));
        let mut i: usize = 0;
        while i < local.len()
            invariant
                i <= local@.len(),
                all == views(local@),
                views(r@) == hosted + all.take(i as int),
            decreases local@.len() - i,
        {
            let ghost was = r@;
            r.push(local[i].clone());
            proof {
                assert(views(r@) =~= views(was).push(all[i as int]));
                assert(hosted + all.take(i + 1) =~= (hosted + all.take(i as int)).push(all[i as int]));
            }
            i = i + 1;
        }
        assert(all.take(all.len() as int) =~= all);
        r
    }

    /// What is done with a request: one for the hosted model is sent or refused,
    /// and every other goes to the local engine untouched.
    pub fn chat_stream(&self, req: &ChatRequest) -> (r: Route)
        ensures
            r is Local <==> req.model@ != self.endpoint.model@,
            match r {
                Route::Local => true,
                Route::Send(s) => req.images@.len() == 0 && req.audio@.len() == 0 && instruction_of(
                    req.messages@,
                ).len() > 0 && s@ == instruction_of(req.messages@),
                Route::Refused(e) => e.status_of() == 400 && (if req.images@.len() > 0
                    || req.audio@.len() > 0 {
                    e.text() == TEXT_ONLY@
                } else {
                    instruction_of(req.messages@).len() == 0 && e.text() == NO_QUESTION@
                }),
            },
    {
        if !same(req.model.as_str(), self.endpoint.model.as_str()) {
            return Route::Local;
        }
        match payload_for(req) {
            Ok(s) => Route::Send(s),
            Err(e) => Route::Refused(e),
        }
    }

    /// What a client is given once the endpoint has answered or failed: its text
    /// in one piece with no invented accounting, or the failure. A failure is
    /// never answered by another model.
    pub fn answered(&self, reply: &Result<String, RemoteError>) -> (r: Result<
        (String, CompletionStats),
        EngineError,
    >)
        ensures
            match reply {
                Ok(t) => r matches Ok(a) && a.0@ == t@ && a.1 == (CompletionStats {
                    prompt_tokens: 0,
                    completion_tokens: 0,
                    finished: true,
                }),
                Err(f) => r matches Err(e) && e.status_of() == class_of(f.fault) && e.text()
                    == f.text@,
            },
    {
        match reply {
            Ok(t) => Ok(
                (
                    t.clone(),
                    CompletionStats { prompt_tokens: 0, completion_tokens: 0, finished: true },
                ),
            ),
            Err(f) => Err(classify(f)),
        }
    }
}

// ---------------------------------------------------------------------------
// Laws
// ---------------------------------------------------------------------------

/// The turn is a person's own.
pub open spec fn by_user() -> spec_fn(Message) -> bool {
    |m: Message| m.role@ == "user"@
}

/// Nothing but the person's own turns reaches the instruction: leaving out every
/// other turn leaves it as it is.
pub proof fn only_the_persons_turns_leave(messages: Seq<Message>)
    ensures
        instruction_of(messages) == instruction_of(messages.filter(by_user())),
{
    picked_of_filter(messages, by_user(), asked());
}

/// A conversation in which no person says anything is never sent.
pub proof fn without_a_question_nothing_is_sent(messages: Seq<Message>)
    requires
        forall|i: int| 0 <= i < messages.len() ==> #[trigger] messages[i].role@ != "user"@,
    ensures
        instruction_of(messages).len() == 0,
{
    picked_facts(messages, asked());
    let p = picked(messages, asked());
    if p.len() > 0 {
        assert(p.contains(p[0]));
        let i = choose|i: int| 0 <= i < messages.len() && asked()(#[trigger] messages[i]) == Some(p[0]);
        assert(messages[i].role@ != "user"@);
    }
}

/// Everything a person says is asked, in order: the instruction of a conversation
/// is that of its first part and that of the rest, with a blank line between them
/// where both ask something; and a person's turn is what they said, without the
/// white space around it.
pub proof fn everything_a_person_says_is_asked(a: Seq<Message>, b: Seq<Message>, m: Message)
    ensures
        instruction_of(a).len() > 0 && instruction_of(b).len() > 0 ==> instruction_of(a + b)
            == instruction_of(a) + "\n\n"@ + instruction_of(b),
        instruction_of(a).len() == 0 ==> instruction_of(a + b) == instruction_of(b),
        instruction_of(b).len() == 0 ==> instruction_of(a + b) == instruction_of(a),
        m.role@ == "user"@ ==> instruction_of(seq![m]) == trim_of(m.content@),
        m.role@ != "user"@ ==> instruction_of(seq![m]).len() == 0,
{
    let f = asked();
    picked_adds_up(a, b, f, m);
    let x = picked(a, f);
    let y = picked(b, f);
    nothing_asked_is_blank(a);
    nothing_asked_is_blank(b);
    if x.len() > 0 && y.len() > 0 {
        crate::text::joins_add_up(x, y, "\n\n"@);
    }
    if x.len() == 0 {
        assert(x + y =~= y);
    }
    if y.len() == 0 {
        assert(x + y =~= x);
    }
    let one = picked(seq![m], f);
    if m.role@ == "user"@ {
        if trim_of(m.content@).len() > 0 {
            assert(one[0] == trim_of(m.content@));
        } else {
            assert(trim_of(m.content@) =~= Seq::<char>::empty());
        }
    }
}

proof fn nothing_asked_is_blank(s: Seq<Message>)
    ensures
        picked(s, asked()).len() > 0 <==> instruction_of(s).len() > 0,
{
    let x = picked(s, asked());
    picked_facts(s, asked());
    if x.len() > 0 {
        assert(x.contains(x[0]));
        let i = choose|i: int| 0 <= i < s.len() && asked()(#[trigger] s[i]) == Some(x[0]);
        assert(x[0].len() > 0);
        crate::text::join_holds_each(x, "\n\n"@, 0);
        let k = choose|k: int| crate::text::occurs_at(join_of(x, "\n\n"@), x[0], k);
        assert(crate::text::occurs_at(join_of(x, "\n\n"@), x[0], k));
    }
}

/// A refusal is answered as one, a missing capability as missing, and everything
/// else as a failure.
pub proof fn a_refusal_is_no_breakage(fault: RemoteFault)
    ensures
        class_of(fault) == 400 <==> fault == RemoteFault::NotConsented || fault
            == RemoteFault::Payload,
        class_of(fault) == 501 <==> fault == RemoteFault::NoTransport,
        class_of(fault) == 400 || class_of(fault) == 501 || class_of(fault) == 500,
{
}

/// The budget cuts from the back: what is left is the first of what there was, all
/// of it where it fits.
pub proof fn the_budget_cuts_from_the_back(keys: Seq<Seq<char>>)
    ensures
        within_budget(keys).len() == (if keys.len() < ASK_CONTEXT_NODES {
            keys.len()
        } else {
            ASK_CONTEXT_NODES as nat
        }),
        forall|i: int| 0 <= i < within_budget(keys).len() ==> #[trigger] within_budget(keys)[i] == keys[i],
{
}

/// Every node that was found grounds the question, in order, and nothing else does.
pub proof fn every_found_node_grounds(a: Seq<Option<Node>>, b: Seq<Option<Node>>, n: Node)
    ensures
        picked(a + b, present()) == picked(a, present()) + picked(b, present()),
        picked(seq![Some(n)], present()) == seq![n],
        picked(seq![None::<Node>], present()).len() == 0,
{
    picked_adds_up(a, b, present(), Some(n));
    picked_adds_up(a, b, present(), None);
}

/// What a fault is answered with is a fault of its own class: a request that cannot
/// be served as asked is the client's, one that nothing here serves is not
/// implemented, and the rest is the server's; its text is passed on.
pub proof fn a_fault_keeps_its_class_and_text(text: String)
    ensures
        400 <= EngineError::InvalidRequest(text).status_of() < 500,
        EngineError::Unsupported(text).status_of() == 501,
        EngineError::Inference(text).status_of() == 500,
        EngineError::InvalidRequest(text).text() == text@,
        EngineError::Unsupported(text).text() == text@,
        EngineError::Inference(text).text() == text@,
        EngineError::InvalidRequest(text).status_of() == class_of(RemoteFault::NotConsented),
{
}

} // verus!
