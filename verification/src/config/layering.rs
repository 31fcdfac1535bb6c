//! What holds of every merge of two layers, key by key.
use vstd::prelude::*;

use crate::config::{
    image_problem, image_problems, layer_of, list_of, list_view, model_pin_of, not_kept, overlay,
    workspaces_view, Build, Config, Loaded, ModelsConfig, NO_ADAPTER,
};
use crate::seqs::filtered;
use crate::text::{
    contains, contains_within, holds_its_middle, is_white, join_of, opt_view, trimming_takes_the_ends,
};

verus! {

/// The project's value wins: every ordinary key that the project's layer sets has
/// the project's value, also where the user's layer sets it too.
pub proof fn a_project_value_wins(user: Config, project: Config, build: Build, r: Config)
    requires
        overlay(user, project, build, r),
    ensures
        project.models.embedding is Some ==> r.models.embedding == project.models.embedding,
        project.models.generative is Some ==> r.models.generative == project.models.generative,
        project.models.vision is Some ==> r.models.vision == project.models.vision,
        project.models.audio is Some ==> r.models.audio == project.models.audio,
        project.models.ocr is Some ==> r.models.ocr == project.models.ocr,
        project.infer.min_confidence is Some ==> r.infer.min_confidence == project.infer.min_confidence,
        project.infer.top_k is Some ==> r.infer.top_k == project.infer.top_k,
        project.duplicates.min_similarity is Some ==> r.duplicates.min_similarity == project.duplicates.min_similarity,
        project.duplicates.limit is Some ==> r.duplicates.limit == project.duplicates.limit,
        project.ingest.prose is Some ==> r.ingest.prose == project.ingest.prose,
        project.ingest.pdf is Some ==> r.ingest.pdf == project.ingest.pdf,
        project.ingest.ocr is Some ==> r.ingest.ocr == project.ingest.ocr,
        project.ingest.vision is Some ==> r.ingest.vision == project.ingest.vision,
        project.ingest.audio is Some ==> r.ingest.audio == project.ingest.audio,
        project.media.gate is Some ==> r.media.gate == project.media.gate,
        project.media.silence_rms is Some ==> r.media.silence_rms == project.media.silence_rms,
        project.media.image_variance is Some ==> r.media.image_variance == project.media.image_variance,
        project.serve.addr is Some ==> r.serve.addr == project.serve.addr,
        project.serve.tools is Some ==> r.serve.tools == project.serve.tools,
        project.serve.memory_budget_mb is Some ==> r.serve.memory_budget_mb == project.serve.memory_budget_mb,
        project.serve.max_context_tokens is Some ==> r.serve.max_context_tokens == project.serve.max_context_tokens,
        project.serve.tls_cert is Some ==> r.serve.tls_cert == project.serve.tls_cert,
        project.serve.tls_key is Some ==> r.serve.tls_key == project.serve.tls_key,
        project.remote.endpoint is Some ==> r.remote.endpoint == project.remote.endpoint,
        project.remote.model is Some ==> r.remote.model == project.remote.model,
        project.lint.image is Some ==> r.lint.image == project.lint.image,
        project.paths.model_store is Some ==> r.paths.model_store == project.paths.model_store,
        project.telemetry.file is Some ==> r.telemetry.file == project.telemetry.file,
        project.telemetry.rotation is Some ==> r.telemetry.rotation == project.telemetry.rotation,
        project.telemetry.format is Some ==> r.telemetry.format == project.telemetry.format,
        project.serve.models is Some ==> list_view(r.serve.models) == list_view(
            project.serve.models,
        ),
        project.workspace.roots is Some ==> list_view(r.workspace.roots) == list_view(
            project.workspace.roots,
        ),
        project.workspace.repos is Some ==> list_view(r.workspace.repos) == list_view(
            project.workspace.repos,
        ),
        project.standalone.roots is Some ==> list_view(r.standalone.roots) == list_view(
            project.standalone.roots,
        ),
        project.standalone.repos is Some ==> list_view(r.standalone.repos) == list_view(
            project.standalone.repos,
        ),
        project.workspaces@.len() > 0 ==> workspaces_view(r.workspaces@) == workspaces_view(
            project.workspaces@,
        ),
        project.links@.len() > 0 ==> r.links@ == project.links@,
{
}

/// What the project's layer leaves open is the user's: every ordinary key that it
/// does not set has the user's value, set or not.
pub proof fn an_unset_value_is_the_users(user: Config, project: Config, build: Build, r: Config)
    requires
        overlay(user, project, build, r),
    ensures
        project.models.embedding is None ==> r.models.embedding == user.models.embedding,
        project.models.generative is None ==> r.models.generative == user.models.generative,
        project.models.vision is None ==> r.models.vision == user.models.vision,
        project.models.audio is None ==> r.models.audio == user.models.audio,
        project.models.ocr is None ==> r.models.ocr == user.models.ocr,
        project.infer.min_confidence is None ==> r.infer.min_confidence == user.infer.min_confidence,
        project.infer.top_k is None ==> r.infer.top_k == user.infer.top_k,
        project.duplicates.min_similarity is None ==> r.duplicates.min_similarity == user.duplicates.min_similarity,
        project.duplicates.limit is None ==> r.duplicates.limit == user.duplicates.limit,
        project.ingest.prose is None ==> r.ingest.prose == user.ingest.prose,
        project.ingest.pdf is None ==> r.ingest.pdf == user.ingest.pdf,
        project.ingest.ocr is None ==> r.ingest.ocr == user.ingest.ocr,
        project.ingest.vision is None ==> r.ingest.vision == user.ingest.vision,
        project.ingest.audio is None ==> r.ingest.audio == user.ingest.audio,
        project.media.gate is None ==> r.media.gate == user.media.gate,
        project.media.silence_rms is None ==> r.media.silence_rms == user.media.silence_rms,
        project.media.image_variance is None ==> r.media.image_variance == user.media.image_variance,
        project.serve.addr is None ==> r.serve.addr == user.serve.addr,
        project.serve.tools is None ==> r.serve.tools == user.serve.tools,
        project.serve.memory_budget_mb is None ==> r.serve.memory_budget_mb == user.serve.memory_budget_mb,
        project.serve.max_context_tokens is None ==> r.serve.max_context_tokens == user.serve.max_context_tokens,
        project.serve.tls_cert is None ==> r.serve.tls_cert == user.serve.tls_cert,
        project.serve.tls_key is None ==> r.serve.tls_key == user.serve.tls_key,
        project.remote.endpoint is None ==> r.remote.endpoint == user.remote.endpoint,
        project.remote.model is None ==> r.remote.model == user.remote.model,
        project.lint.image is None ==> r.lint.image == user.lint.image,
        project.paths.model_store is None ==> r.paths.model_store == user.paths.model_store,
        project.telemetry.file is None ==> r.telemetry.file == user.telemetry.file,
        project.telemetry.rotation is None ==> r.telemetry.rotation == user.telemetry.rotation,
        project.telemetry.format is None ==> r.telemetry.format == user.telemetry.format,
        project.serve.models is None ==> list_view(r.serve.models) == list_view(user.serve.models),
        project.workspace.roots is None ==> list_view(r.workspace.roots) == list_view(user.workspace.roots),
        project.workspace.repos is None ==> list_view(r.workspace.repos) == list_view(user.workspace.repos),
        project.standalone.roots is None ==> list_view(r.standalone.roots) == list_view(user.standalone.roots),
        project.standalone.repos is None ==> list_view(r.standalone.repos) == list_view(user.standalone.repos),
        project.workspaces@.len() == 0 ==> workspaces_view(r.workspaces@) == workspaces_view(
            user.workspaces@,
        ),
        project.links@.len() == 0 ==> r.links@ == user.links@,
{
}

/// A permission is the user's to give: where the build can use it and the project
/// does not deny it, it is what the user's layer says, whether or not the project
/// claims to grant it.
pub proof fn a_users_word_stands_undenied(user: Config, project: Config, build: Build, r: Config)
    requires
        overlay(user, project, build, r),
    ensures
        build.remote && project.remote.enabled != Some(false) ==> r.remote.enabled
            == user.remote.enabled,
        build.lint && project.lint.allow_unsandboxed != Some(false) ==> r.lint.allow_unsandboxed
            == user.lint.allow_unsandboxed,
        build.remote && project.remote.enabled == Some(false) ==> r.remote.enabled == Some(false),
        build.lint && project.lint.allow_unsandboxed == Some(false) ==> r.lint.allow_unsandboxed
            == Some(false),
        !build.remote ==> r.remote.enabled is None,
        !build.lint ==> r.lint.allow_unsandboxed is None,
{
}

/// Only the project's layer directs the merge of exclusions: what is recorded of
/// a reset is what it said.
pub proof fn the_reset_is_the_projects(user: Config, project: Config, build: Build, r: Config)
    requires
        overlay(user, project, build, r),
    ensures
        r.debt.ignore_reset == project.debt.ignore_reset,
        project.debt.ignore_reset == Some(true) ==> list_view(r.debt.ignore) == list_view(
            project.debt.ignore,
        ),
        project.debt.ignore_reset != Some(true) && project.debt.ignore is None ==> list_view(
            r.debt.ignore,
        ) == list_view(user.debt.ignore),
        project.debt.ignore_reset != Some(true) && user.debt.ignore is None ==> list_view(
            r.debt.ignore,
        ) == list_view(project.debt.ignore),
{
}

/// The white space around a model's name is no part of it, and a value with
/// nothing else names none.
pub proof fn blanks_name_no_model(a: Seq<char>, name: Seq<char>, b: Seq<char>)
    requires
        forall|i: int| 0 <= i < a.len() ==> is_white(#[trigger] a[i]),
        forall|i: int| 0 <= i < b.len() ==> is_white(#[trigger] b[i]),
        name.len() > 0 ==> !is_white(name[0]) && !is_white(name.last()),
    ensures
        model_pin_of(Some(a + name + b)) == (if name.len() > 0 {
            Some(name)
        } else {
            None
        }),
        model_pin_of(None) is None,
{
    trimming_takes_the_ends(a, name, b);
}

/// Each of the five keys reads its own slot, and no other key reads any.
pub proof fn each_key_reads_its_own_slot(m: ModelsConfig, key: Seq<char>)
    ensures
        m.slot("embedding"@) == opt_view(m.embedding),
        m.slot("generative"@) == opt_view(m.generative),
        m.slot("vision"@) == opt_view(m.vision),
        m.slot("audio"@) == opt_view(m.audio),
        m.slot("ocr"@) == opt_view(m.ocr),
        key != "embedding"@ && key != "generative"@ && key != "vision"@ && key != "audio"@ && key
            != "ocr"@ ==> m.slot(key) is None,
{
    reveal_strlit("embedding");
    reveal_strlit("generative");
    reveal_strlit("vision");
    reveal_strlit("audio");
    reveal_strlit("ocr");
    assert("embedding"@.len() == 9);
    assert("generative"@.len() == 10);
    assert("vision"@.len() == 6);
    assert("audio"@.len() == 5);
    assert("ocr"@.len() == 3);
}

/// A normalised table differs from the one it was made of by blanks alone: each
/// slot, on its own, names what it named.
pub proof fn normalising_keeps_the_slots_apart(m: ModelsConfig, of: ModelsConfig)
    requires
        m.normal(of),
    ensures
        opt_view(m.embedding) == model_pin_of(opt_view(of.embedding)),
        opt_view(m.generative) == model_pin_of(opt_view(of.generative)),
        opt_view(m.vision) == model_pin_of(opt_view(of.vision)),
        opt_view(m.audio) == model_pin_of(opt_view(of.audio)),
        opt_view(m.ocr) == model_pin_of(opt_view(of.ocr)),
{
}

/// The layers named for a pattern are those whose lists hold it.
pub proof fn a_patterns_layers_are_named(l: Loaded, pattern: Seq<char>)
    ensures
        ({
            let u = list_of(l.user.debt.ignore).contains(pattern);
            let p = list_of(l.project.debt.ignore).contains(pattern);
            let named = layer_of(pattern, l.user.debt, l.project.debt);
            &&& named == "project, user"@ <==> p && u
            &&& named == "project"@ <==> p && !u
            &&& named == "user"@ <==> !p && u
            &&& named == "unknown"@ <==> !p && !u
        }),
{
    reveal_strlit("project, user");
    reveal_strlit("project");
    reveal_strlit("user");
    reveal_strlit("unknown");
    assert("project, user"@.len() == 13);
    assert("project"@.len() == 7);
    assert("user"@.len() == 4);
    assert("unknown"@.len() == 7);
    assert("project"@[0] == 'p');
    assert("unknown"@[0] == 'u');
}

/// A pattern of the user's is discarded exactly if it is not in force any more.
pub proof fn what_is_discarded_is_not_in_force(
    users: Seq<Seq<char>>,
    kept: Seq<Seq<char>>,
    pattern: Seq<char>,
)
    ensures
        users.filter(not_kept(kept)).contains(pattern) <==> users.contains(pattern)
            && !kept.contains(pattern),
{
    let p = not_kept(kept);
    let gone = users.filter(p);
    filtered(users, p);
    if gone.contains(pattern) {
        let i = choose|i: int| 0 <= i < gone.len() && gone[i] == pattern;
        assert(p(gone[i]) && users.contains(gone[i]));
    }
    if users.contains(pattern) && !kept.contains(pattern) {
        let i = choose|i: int| 0 <= i < users.len() && users[i] == pattern;
        assert(p(users[i]));
    }
}

/// `p` complains of the analyzer `name` and lists the analyzers there are.
pub open spec fn calls_unreadable(p: Seq<char>, name: Seq<char>, known: Seq<Seq<char>>) -> bool {
    &&& contains(p, "`"@ + name + "`"@)
    &&& forall|k: int| 0 <= k < known.len() ==> contains(p, #[trigger] known[k])
}

/// Some text of `all` complains of the analyzer `name`.
pub open spec fn complained_of(
    all: Seq<Seq<char>>,
    name: Seq<char>,
    known: Seq<Seq<char>>,
) -> bool {
    exists|j: int| 0 <= j < all.len() && calls_unreadable(#[trigger] all[j], name, known)
}

/// Every declared image is looked at: one for an analyzer that nothing reads is
/// complained of by name, whatever its pin; one with a bad pin by the pin's own
/// complaint; and there is nothing to say exactly where every image is for a known
/// analyzer and every pin is good.
pub proof fn every_image_is_looked_at(
    names: Seq<Seq<char>>,
    pins: Seq<Result<String, String>>,
    known: Seq<Seq<char>>,
    i: int,
)
    requires
        0 <= i < names.len(),
        pins.len() == names.len(),
    ensures
        !known.contains(names[i]) ==> complained_of(
            image_problems(names, pins, known),
            names[i],
            known,
        ),
        known.contains(names[i]) && pins[i] is Err ==> image_problems(names, pins, known).contains(
            pins[i]->Err_0@,
        ),
        image_problems(names, pins, known).len() <= names.len(),
        (forall|k: int|
            0 <= k < names.len() ==> known.contains(#[trigger] names[k]) && pins[k] is Ok) ==> image_problems(
            names,
            pins,
            known,
        ).len() == 0,
{
    images_looked_at(names, pins, known, i);
    images_all_good(names, pins, known);
}

proof fn images_looked_at(
    names: Seq<Seq<char>>,
    pins: Seq<Result<String, String>>,
    known: Seq<Seq<char>>,
    i: int,
)
    requires
        0 <= i < names.len() <= pins.len(),
    ensures
        !known.contains(names[i]) ==> complained_of(
            image_problems(names, pins, known),
            names[i],
            known,
        ),
        known.contains(names[i]) && pins[i] is Err ==> image_problems(names, pins, known).contains(
            pins[i]->Err_0@,
        ),
    decreases names.len(),
{
    let all = image_problems(names, pins, known);
    let rest = image_problems(names.drop_last(), pins, known);
    if i == names.len() - 1 {
        if !known.contains(names[i]) {
            unreadable_is_said(names[i], pins[i], known);
            assert(all.last() == image_problem(names[i], pins[i], known)->0);
            assert(calls_unreadable(all[all.len() - 1], names[i], known));
        } else if pins[i] is Err {
            assert(all.last() == pins[i]->Err_0@);
        }
    } else {
        images_looked_at(names.drop_last(), pins, known, i);
        assert(names.drop_last()[i] == names[i]);
        assert forall|j: int| 0 <= j < rest.len() implies all[j] == #[trigger] rest[j] by {}
        if !known.contains(names[i]) {
            let j = choose|j: int|
                0 <= j < rest.len() && calls_unreadable(#[trigger] rest[j], names[i], known);
            assert(calls_unreadable(all[j], names[i], known));
        } else if pins[i] is Err {
            let j = choose|j: int| 0 <= j < rest.len() && rest[j] == pins[i]->Err_0@;
            assert(all[j] == pins[i]->Err_0@);
        }
    }
}

proof fn images_all_good(
    names: Seq<Seq<char>>,
    pins: Seq<Result<String, String>>,
    known: Seq<Seq<char>>,
)
    requires
        names.len() <= pins.len(),
    ensures
        image_problems(names, pins, known).len() <= names.len(),
        (forall|k: int|
            0 <= k < names.len() ==> known.contains(#[trigger] names[k]) && pins[k] is Ok) ==> image_problems(
            names,
            pins,
            known,
        ).len() == 0,
    decreases names.len(),
{
    if names.len() > 0 {
        images_all_good(names.drop_last(), pins, known);
        if forall|k: int|
            0 <= k < names.len() ==> known.contains(#[trigger] names[k]) && pins[k] is Ok {
            assert(known.contains(names[names.len() - 1]));
            assert forall|k: int| 0 <= k < names.len() - 1 implies known.contains(
                #[trigger] names.drop_last()[k],
            ) && pins[k] is Ok by {
                assert(known.contains(names[k]));
            }
        }
    }
}

proof fn unreadable_is_said(
    name: Seq<char>,
    pin: Result<String, String>,
    known: Seq<Seq<char>>,
)
    requires
        !known.contains(name),
    ensures
        calls_unreadable(image_problem(name, pin, known)->0, name, known),
{
    let none = Seq::<char>::empty();
    let whole = image_problem(name, pin, known)->0;
    let t = "`"@;
    let tail = " is not an analyzer this build can read the output of (it can read: "@;
    let list = join_of(known, ", "@);
    reveal_strlit("`");
    reveal_strlit("` is not an analyzer this build can read the output of (it can read: ");
    reveal_strlit(" is not an analyzer this build can read the output of (it can read: ");
    assert("` is not an analyzer this build can read the output of (it can read: "@ =~= t + tail);
    let who = t + name + t;
    assert(none + who + (tail + list + NO_ADAPTER@) =~= whole);
    holds_its_middle(none, who, tail + list + NO_ADAPTER@);
    assert(who + tail + list + NO_ADAPTER@ =~= whole);
    holds_its_middle(who + tail, list, NO_ADAPTER@);
    assert forall|k: int| 0 <= k < known.len() implies contains(whole, #[trigger] known[k]) by {
        crate::text::join_holds_each(known, ", "@, k);
        contains_within(whole, list, known[k]);
    }
}

} // verus!
