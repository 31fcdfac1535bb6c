//! The remote model tier's transport, but for the socket: the credential, what a
//! failure says, and what a person is shown before anything is sent.
use std::fmt::Write;

use vstd::prelude::*;

use crate::config::model_pin_of;
use crate::text::{
    chars_of, decimal, decimal_of, join, join_of, opt_view, string_of, trim, trim_of, views,
};

verus! {

/// The environment variable that holds the endpoint's credential. It is no
/// config key: a key that could be set in a committed file is one that gets
/// committed.
pub const API_KEY_ENV: &'static str = "ROTEIRO_REMOTE_API_KEY";

/// How long a single call may take, in seconds.
pub const TIMEOUT_SECS: usize = 120;

/// How much of an endpoint's message is quoted, in characters.
pub const EXCERPT_CHARS: usize = 200;

/// The credential in the variable's value, blank counting as unset.
pub fn api_key(value: &Option<String>) -> (r: Option<String>)
    ensures
        opt_view(r) == model_pin_of(opt_view(*value)),
{
    crate::config::model_pin(value)
}

/// Whether a credential is configured.
pub fn api_key_is_set(value: &Option<String>) -> (r: bool)
    ensures
        r == (value matches Some(v) && trim_of(v@).len() > 0),
{
    api_key(value).is_some()
}

// ---------------------------------------------------------------------------
// Failures
// ---------------------------------------------------------------------------

/// Why nothing came back, as far as the message tells reasons apart.
#[derive(Debug, Clone, Copy, PartialEq, Eq, Structural)]
pub enum SendFault {
    Timeout,
    HostNotFound,
    RedirectFailed,
    Other,
}

/// What follows the time in the message about a timeout.
pub const ABANDONED: &'static str = "s, so the call was abandoned. \
The request had already been sent and is already in the ledger — \
a timeout does not un-send it";

/// What follows the transport's words in the message about a refused redirect.
pub const NOT_FOLLOWED: &'static str = "): \
the ledger records the endpoint that was consented to, and following the \
redirect would make that record wrong about where the bytes went. \
Point `[remote] endpoint` at the new URL deliberately";

/// What is said of a call to which nothing came back. `text` are the
/// transport's own words.
pub open spec fn send_failure_of(fault: SendFault, text: Seq<char>) -> Seq<char> {
    match fault {
        SendFault::Timeout => "no response within "@ + decimal_of(TIMEOUT_SECS as nat) + ABANDONED@,
        SendFault::HostNotFound => {
            "the host named by `[remote] endpoint` could not be resolved ("@ + text
                + "). That is a configuration error rather than an outage"@
        },
        SendFault::RedirectFailed => {
            "the endpoint answered with a redirect, which is not followed ("@ + text + NOT_FOLLOWED@
        },
        SendFault::Other => text,
    }
}

/// Says why nothing came back. Only a timeout names the deadline.
pub fn fault_text(fault: SendFault, text: &str) -> (r: String)
    ensures
        r@ == send_failure_of(fault, text@),
{
    match fault {
        SendFault::Timeout => {
            let mut s = "no response within ".to_owned();
            s.append(decimal(TIMEOUT_SECS).as_str());
            s.append(ABANDONED);
            s
        },
        SendFault::HostNotFound => {
            let mut s = "the host named by `[remote] endpoint` could not be resolved (".to_owned();
            s.append(text);
            s.append("). That is a configuration error rather than an outage");
            s
        },
        SendFault::RedirectFailed => {
            let mut s =
                "the endpoint answered with a redirect, which is not followed (".to_owned();
            s.append(text);
            s.append(NOT_FOLLOWED);
            s
        },
        SendFault::Other => text.to_owned(),
    }
}

/// An error of `ureq`.
#[verifier::external_type_specification]
#[verifier::external_body]
pub struct ExError(ureq::Error);

/// Which of the variants that the message tells apart an error of `ureq` is.
pub uninterp spec fn fault_in(error: ureq::Error) -> SendFault;

/// Tells the variants `Timeout`, `HostNotFound` and `RedirectFailed` of
/// `ureq::Error` from one another and from the rest. Which error is which is not
/// stated: its variants are not visible here.
#[verifier::external_body]
fn fault_of(error: &ureq::Error) -> (r: SendFault)
    ensures
        r == fault_in(*error),
{
    match error {
        ureq::Error::Timeout(_) => SendFault::Timeout,
        ureq::Error::HostNotFound => SendFault::HostNotFound,
        ureq::Error::RedirectFailed => SendFault::RedirectFailed,
        _ => SendFault::Other,
    }
}

/// The `Display` of `ureq::Error`, as far as it writes anything. Two of the
/// variants that are told apart have fixed words. Nothing is stated of the
/// others: among them are the operating system's own texts, and those of errors
/// of any type that are passed on.
#[verifier::external_body]
fn error_words(error: &ureq::Error) -> (r: String)
    ensures
        fault_in(*error) == SendFault::HostNotFound ==> r@ == "host not found"@,
        fault_in(*error) == SendFault::RedirectFailed ==> r@ == "redirect failed"@,
{
    let mut s = String::new();
    let _ = write!(s, "{}", error);
    s
}

/// Says why nothing came back, by the error that the transport gave, in its own
/// words where the message quotes any.
pub fn send_failure(error: &ureq::Error) -> (r: String)
    ensures
        exists|t: Seq<char>| r@ == #[trigger] send_failure_of(fault_in(*error), t),
        fault_in(*error) == SendFault::HostNotFound ==> r@ == send_failure_of(
            SendFault::HostNotFound,
            "host not found"@,
        ),
        fault_in(*error) == SendFault::RedirectFailed ==> r@ == send_failure_of(
            SendFault::RedirectFailed,
            "redirect failed"@,
        ),
{
    let words = error_words(error);
    fault_text(fault_of(error), words.as_str())
}

/// The first characters of a message, marked where it is cut.
pub open spec fn excerpt_of(s: Seq<char>) -> Seq<char> {
    if s.len() <= EXCERPT_CHARS {
        s
    } else {
        s.take(EXCERPT_CHARS as int) + "…[truncated]"@
    }
}

/// The first 200 characters of an endpoint's message, marked where it is cut.
pub fn excerpt(text: &str) -> (r: String)
    ensures
        r@ == excerpt_of(text@),
{
    let v = chars_of(text);
    if v.len() <= EXCERPT_CHARS {
        return text.to_owned();
    }
    let mut s = string_of(&v, 0, EXCERPT_CHARS);
    assert(s@ =~= text@.take(EXCERPT_CHARS as int));
    s.append("…[truncated]");
    s
}

/// What is quoted of an endpoint's answer.
pub open spec fn said_of(body: Seq<char>) -> Seq<char> {
    if trim_of(body).len() == 0 {
        "and sent no explanation"@
    } else {
        "and said: "@ + excerpt_of(trim_of(body))
    }
}

/// What follows the variable's name in the hint about a credential.
pub const KEY_HINT: &'static str = "` — it is not a config key, because \
`roteiro.toml` is committed by design";

/// The hint about a redirect.
pub const REDIRECT_HINT: &'static str =
    ". Redirects are not followed: the ledger records the endpoint that was \
consented to, and following a redirect would make that record wrong about where \
the bytes went. Point `[remote] endpoint` at the new URL deliberately";

/// What is added for the statuses that have a likely cause.
pub open spec fn hint_of(status: u16) -> Seq<char> {
    if status == 401 || status == 403 {
        ". The credential comes from `$"@ + API_KEY_ENV@ + KEY_HINT@
    } else if 300 <= status && status < 400 {
        REDIRECT_HINT@
    } else {
        Seq::empty()
    }
}

/// Why an HTTP status is a failure; `None` for a success.
pub open spec fn status_failure_of(status: u16, body: Seq<char>) -> Option<Seq<char>> {
    if 200 <= status && status < 300 {
        None
    } else {
        Some(
            "the endpoint answered HTTP "@ + decimal_of(status as nat) + " "@ + said_of(body)
                + hint_of(status),
        )
    }
}

/// Says why an HTTP status is a failure, in the endpoint's own words where it
/// had any; `None` for a success.
pub fn status_failure(status: u16, body: &str) -> (r: Option<String>)
    ensures
        opt_view(r) == status_failure_of(status, body@),
{
    if 200 <= status && status < 300 {
        return None;
    }
    let words = trim(body);
    let said = if words.as_str().is_empty() {
        "and sent no explanation".to_owned()
    } else {
        let mut s = "and said: ".to_owned();
        s.append(excerpt(words.as_str()).as_str());
        s
    };
    let hint = if status == 401 || status == 403 {
        let mut s = ". The credential comes from `$".to_owned();
        s.append(API_KEY_ENV);
        s.append(KEY_HINT);
        s
    } else if 300 <= status && status < 400 {
        REDIRECT_HINT.to_owned()
    } else {
        String::new()
    };
    let mut r = "the endpoint answered HTTP ".to_owned();
    r.append(decimal(status as usize).as_str());
    r.append(" ");
    r.append(said.as_str());
    r.append(hint.as_str());
    Some(r)
}

// ---------------------------------------------------------------------------
// Consent
// ---------------------------------------------------------------------------

/// What the consent gate decided, and why.
#[derive(Debug, Clone, Copy, PartialEq, Eq, Structural)]
pub enum Reason {
    Granted,
    ProjectDenied,
    InvocationDenied,
    InvocationUnset,
    UserLayerDenied,
    UserLayerUnset,
}

/// Whether asking may lift the refusal: only where the person has opted in and
/// nothing but this run has not.
pub fn may_prompt(reason: Reason) -> (r: bool)
    ensures
        r == (reason == Reason::InvocationUnset),
{
    match reason {
        Reason::InvocationUnset => true,
        _ => false,
    }
}

/// Where a request goes, and under what name.
#[derive(Debug)]
pub struct Endpoint {
    pub url: String,
    pub model: String,
    /// How far the vendor's claims are trusted.
    pub trust: String,
}

/// What a person is shown before being asked: the very bytes, and what they
/// mean.
pub open spec fn prompt_of(
    e: Endpoint,
    body: Seq<char>,
    bytes: nat,
    fields: Seq<Seq<char>>,
    disclosure: Seq<char>,
) -> Seq<char> {
    "\nroteiro is about to send repository content off this machine.\n\nto:       "@ + e.url@
        + "\nas model: "@ + e.model@ + "  (trust: "@ + e.trust@ + ")\ncarrying: "@ + join_of(
        fields,
        ", "@,
    ) + " ("@ + decimal_of(bytes) + " bytes)\n\n--- the exact body ---\n"@ + body
        + "\n--- end of body ---\n\n"@ + disclosure + "\n"@
}

/// What a person is shown before being asked to grant this run.
pub fn prompt_text(endpoint: &Endpoint, body: &str, fields: &Vec<String>, disclosure: &str) -> (s:
    String)
    ensures
        s@ == prompt_of(
            *endpoint,
            body@,
            body.len() as nat,
            views(fields@),
            disclosure@,
        ),
{
    let mut s =
        "\nroteiro is about to send repository content off this machine.\n\nto:       ".to_owned();
    s.append(endpoint.url.as_str());
    s.append("\nas model: ");
    s.append(endpoint.model.as_str());
    s.append("  (trust: ");
    s.append(endpoint.trust.as_str());
    s.append(")\ncarrying: ");
    s.append(join(fields, ", ").as_str());
    s.append(" (");
    s.append(decimal(body.len()).as_str());
    s.append(" bytes)\n\n--- the exact body ---\n");
    s.append(body);
    s.append("\n--- end of body ---\n\n");
    s.append(disclosure);
    s.append("\n");
    s
}

// ---------------------------------------------------------------------------
// Laws
// ---------------------------------------------------------------------------

/// What an endpoint said is quoted, but never more than an excerpt of it: the
/// message about a failure stays short however long the answer.
pub proof fn a_failure_is_short(status: u16, body: Seq<char>)
    ensures
        status_failure_of(status, body) matches Some(t) ==> t.len() <= 512,
{
    reveal_strlit("the endpoint answered HTTP ");
    reveal_strlit(" ");
    reveal_strlit("and sent no explanation");
    reveal_strlit("and said: ");
    reveal_strlit("…[truncated]");
    reveal_strlit(". The credential comes from `$");
    reveal_strlit("ROTEIRO_REMOTE_API_KEY");
    reveal_strlit(
        "` — it is not a config key, because `roteiro.toml` is committed by design",
    );
    reveal_strlit(
        ". Redirects are not followed: the ledger records the endpoint that was \
consented to, and following a redirect would make that record wrong about where \
the bytes went. Point `[remote] endpoint` at the new URL deliberately",
    );
    reveal_with_fuel(decimal_of, 5);
    assert(decimal_of(status as nat).len() <= 5);
}

/// What is sent is shown: the prompt holds the body, character for character.
pub proof fn the_prompt_holds_the_body(
    e: Endpoint,
    body: Seq<char>,
    bytes: nat,
    fields: Seq<Seq<char>>,
    disclosure: Seq<char>,
)
    ensures
        crate::text::contains(prompt_of(e, body, bytes, fields, disclosure), body),
        crate::text::contains(prompt_of(e, body, bytes, fields, disclosure), disclosure),
{
    let head =
        "\nroteiro is about to send repository content off this machine.\n\nto:       "@ + e.url@
        + "\nas model: "@ + e.model@ + "  (trust: "@ + e.trust@ + ")\ncarrying: "@ + join_of(
        fields,
        ", "@,
    ) + " ("@ + decimal_of(bytes) + " bytes)\n\n--- the exact body ---\n"@;
    let mid = head + body + "\n--- end of body ---\n\n"@;
    let all = prompt_of(e, body, bytes, fields, disclosure);
    let i = head.len() as int;
    let j = mid.len() as int;
    assert(all == mid + disclosure + "\n"@);
    assert(all.subrange(i, i + body.len()) =~= body);
    assert(all.subrange(j, j + disclosure.len()) =~= disclosure);
    assert(crate::text::occurs_at(all, body, i));
    assert(crate::text::occurs_at(all, disclosure, j));
}

/// A status is a failure exactly if it is no success; the message names it, and
/// quotes the answer where it has any words; the hint about the credential comes
/// with the two statuses that refuse one, and that about redirects with every
/// redirect.
pub proof fn a_failure_says_why(status: u16, body: Seq<char>)
    ensures
        status_failure_of(status, body) is None <==> 200 <= status <= 299,
        status_failure_of(status, body) is Some ==> {
            let t = status_failure_of(status, body)->0;
            &&& crate::text::contains(t, "HTTP "@ + decimal_of(status as nat))
            &&& trim_of(body).len() > 0 ==> crate::text::contains(t, excerpt_of(trim_of(body)))
            &&& status == 401 || status == 403 ==> crate::text::contains(t, API_KEY_ENV@)
            &&& 300 <= status <= 399 ==> crate::text::contains(t, REDIRECT_HINT@)
            &&& trim_of(body).len() == 0 ==> crate::text::contains(t, "and sent no explanation"@)
        },
{
    if status_failure_of(status, body) is Some {
        let none = Seq::<char>::empty();
        let t = status_failure_of(status, body)->0;
        let lead = "the endpoint answered HTTP "@;
        let code = decimal_of(status as nat);
        let said = said_of(body);
        let hint = hint_of(status);
        reveal_strlit("the endpoint answered HTTP ");
        reveal_strlit("the endpoint answered ");
        reveal_strlit("HTTP ");
        assert(lead =~= "the endpoint answered "@ + "HTTP "@);
        assert("the endpoint answered "@ + ("HTTP "@ + code) + (" "@ + said + hint) =~= t);
        crate::text::holds_its_middle("the endpoint answered "@, "HTTP "@ + code, " "@ + said + hint);
        assert(lead + code + " "@ + said + hint =~= t);
        crate::text::holds_its_middle(lead + code + " "@, said, hint);
        if trim_of(body).len() > 0 {
            let e = excerpt_of(trim_of(body));
            assert("and said: "@ + e + none =~= said);
            crate::text::holds_its_middle("and said: "@, e, none);
            crate::text::contains_within(t, said, e);
        }
        assert(lead + code + " "@ + said + hint + none =~= t);
        crate::text::holds_its_middle(lead + code + " "@ + said, hint, none);
        if status == 401 || status == 403 {
            crate::text::holds_its_middle(
                ". The credential comes from `$"@,
                API_KEY_ENV@,
                KEY_HINT@,
            );
            crate::text::contains_within(t, hint, API_KEY_ENV@);
        }
    }
}

/// An excerpt is the whole of a short text, and of a long one its first
/// characters, as many as are quoted, and a mark.
pub proof fn an_excerpt_is_the_beginning(s: Seq<char>)
    ensures
        s.len() <= 200 ==> excerpt_of(s) == s,
        s.len() > 200 ==> excerpt_of(s).take(200) == s.take(200) && excerpt_of(s).skip(200)
            == "…[truncated]"@,
{
    if s.len() > 200 {
        assert(excerpt_of(s).take(200) =~= s.take(200));
        assert(excerpt_of(s).skip(200) =~= "…[truncated]"@);
    }
}

/// What the transport says is passed on, but for a timeout, of which the message
/// says how long was waited instead; nothing else names the deadline.
pub proof fn the_transports_words_are_passed_on(fault: SendFault, text: Seq<char>, other: Seq<char>)
    ensures
        fault != SendFault::Timeout ==> crate::text::contains(send_failure_of(fault, text), text),
        fault == SendFault::Timeout ==> send_failure_of(fault, text) == send_failure_of(fault, other)
            && crate::text::contains(
            send_failure_of(fault, text),
            "no response within "@ + decimal_of(120),
        ),
        fault == SendFault::Other ==> send_failure_of(fault, text) == text,
{
    let none = Seq::<char>::empty();
    match fault {
        SendFault::Timeout => {
            let p = "no response within "@ + decimal_of(120);
            assert(none + p + ABANDONED@ =~= send_failure_of(fault, text));
            crate::text::holds_its_middle(none, p, ABANDONED@);
        },
        SendFault::HostNotFound => {
            crate::text::holds_its_middle(
                "the host named by `[remote] endpoint` could not be resolved ("@,
                text,
                "). That is a configuration error rather than an outage"@,
            );
        },
        SendFault::RedirectFailed => {
            crate::text::holds_its_middle(
                "the endpoint answered with a redirect, which is not followed ("@,
                text,
                NOT_FOLLOWED@,
            );
        },
        SendFault::Other => {
            assert(none + text + none =~= text);
            crate::text::holds_its_middle(none, text, none);
        },
    }
}

/// The prompt names where the body goes, as what, how far that is trusted, every
/// field and the number of bytes.
pub proof fn the_prompt_names_what_is_sent(
    e: Endpoint,
    body: Seq<char>,
    bytes: nat,
    fields: Seq<Seq<char>>,
    disclosure: Seq<char>,
    i: int,
)
    ensures
        crate::text::contains(prompt_of(e, body, bytes, fields, disclosure), "to:       "@ + e.url@),
        crate::text::contains(
            prompt_of(e, body, bytes, fields, disclosure),
            "\nas model: "@ + e.model@ + "  (trust: "@ + e.trust@ + ")"@,
        ),
        crate::text::contains(
            prompt_of(e, body, bytes, fields, disclosure),
            " ("@ + decimal_of(bytes) + " bytes)"@,
        ),
        0 <= i < fields.len() ==> crate::text::contains(
            prompt_of(e, body, bytes, fields, disclosure),
            fields[i],
        ),
{
    let all = prompt_of(e, body, bytes, fields, disclosure);
    let none = Seq::<char>::empty();
    let open = "\nroteiro is about to send repository content off this machine.\n\n"@;
    let to = "to:       "@ + e.url@;
    let model = "\nas model: "@ + e.model@ + "  (trust: "@ + e.trust@ + ")"@;
    let list = join_of(fields, ", "@);
    let count = " ("@ + decimal_of(bytes) + " bytes)"@;
    let rest = "\n\n--- the exact body ---\n"@ + body + "\n--- end of body ---\n\n"@ + disclosure
        + "\n"@;
    reveal_strlit(
        "\nroteiro is about to send repository content off this machine.\n\nto:       ",
    );
    reveal_strlit("\nroteiro is about to send repository content off this machine.\n\n");
    reveal_strlit("to:       ");
    reveal_strlit(")\ncarrying: ");
    reveal_strlit(")");
    reveal_strlit("\ncarrying: ");
    reveal_strlit(" bytes)\n\n--- the exact body ---\n");
    reveal_strlit(" bytes)");
    reveal_strlit("\n\n--- the exact body ---\n");
    assert("\nroteiro is about to send repository content off this machine.\n\nto:       "@ =~= open
        + "to:       "@);
    assert(")\ncarrying: "@ =~= ")"@ + "\ncarrying: "@);
    assert(" bytes)\n\n--- the exact body ---\n"@ =~= " bytes)"@
        + "\n\n--- the exact body ---\n"@);
    let carrying = "\ncarrying: "@;
    assert(all =~= open + to + model + carrying + list + count + rest);
    assert(open + to + (model + carrying + list + count + rest) =~= all);
    crate::text::holds_its_middle(open, to, model + carrying + list + count + rest);
    assert(open + to + model + (carrying + list + count + rest) =~= all);
    crate::text::holds_its_middle(open + to, model, carrying + list + count + rest);
    assert(open + to + model + carrying + list + count + rest =~= all);
    crate::text::holds_its_middle(open + to + model + carrying + list, count, rest);
    assert(open + to + model + carrying + list + (count + rest) =~= all);
    crate::text::holds_its_middle(open + to + model + carrying, list, count + rest);
    if 0 <= i < fields.len() {
        crate::text::join_holds_each(fields, ", "@, i);
        crate::text::contains_within(all, list, fields[i]);
    }
}

} // verus!
