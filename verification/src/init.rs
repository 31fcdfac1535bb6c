//! What `roteiro init` writes: the git hooks, the section in `AGENTS.md` and the
//! agent skill. Everything it writes is marked, so that writing again renews its
//! own text in place and never touches somebody else's.
use vstd::prelude::*;

use crate::config::paths::{join_path, joined};
use crate::text::{
    chars_of, contains, find_from, first_at, has, is_white, occurs_at, opt_view,
    same, stands_at, string_of, trim_end, trim_end_of, views,
};

pub mod hooks;

verus! {

/// The mark of a managed git hook, and of a managed skill.
pub const HOOK_MARKER: &'static str = "roteiro-managed";

/// The mark at either end of the managed section in `AGENTS.md`.
pub const AGENTS_MARKER: &'static str = "<!-- roteiro-managed -->";

/// What the managed section in `AGENTS.md` opens with: the mark and the section's
/// own first line. It tells the section from stray marks.
pub const OPENING: &'static str = "<!-- roteiro-managed -->\n## Roteiro knowledge graph\n";

/// The opening in a file whose lines end as they do on Windows.
pub const OPENING_CRLF: &'static str =
    "<!-- roteiro-managed -->\r\n## Roteiro knowledge graph\r\n";

/// Where the rendered bundle is written.
pub const BUNDLE_DIR: &'static str = "okf";

/// What every hook begins with.
pub const HOOK_HEADER: &'static str = "#!/bin/sh\n\
# roteiro-managed: Roteiro knowledge-graph automation.\n\
# Delete this file to disable. Re-run `roteiro init` to reinstall.\n";

/// The hook that gates a commit.
pub const GATE: &'static str = "# Block a commit that introduces ADR/annotation drift. Validates the\n\
# staged index — exactly what this commit will record. Skip once with\n\
# `git commit --no-verify`.\n\
command -v roteiro >/dev/null 2>&1 || exit 0\n\
roteiro check --staged || {\n\
\techo 'roteiro: commit blocked by knowledge-graph drift (see above); use `git commit --no-verify` to override.' >&2\n\
\texit 1\n\
}\n";

/// The hook that keeps the graph fresh.
pub const REFRESH: &'static str = "# Keep the Roteiro knowledge graph fresh after HEAD changes.\n\
command -v roteiro >/dev/null 2>&1 && roteiro sync --committed >/dev/null 2>&1 || true\n";

/// The same, with a published graph tried first.
pub const FETCH_REFRESH: &'static str = "# Keep the Roteiro knowledge graph fresh after HEAD changes.\n\
command -v roteiro >/dev/null 2>&1 || exit 0\n\
# Opt-in fast path (`roteiro init --fetch`): try the CI-published graph\n\
# artifact before rebuilding. `roteiro load` refuses an artifact whose tree\n\
# does not match HEAD, so a stale asset falls through to a local rebuild.\n\
# A flag records success rather than `exit`ing, so any step appended below\n\
# (e.g. --okf's render) still runs.\n\
loaded=0\n\
if command -v gh >/dev/null 2>&1; then\n\
\t# Portable temp file: GNU `mktemp` needs no args; BSD/macOS needs a\n\
\t# template, so fall back to `-t`.\n\
\ttmp=$(mktemp 2>/dev/null || mktemp -t roteiro-graph 2>/dev/null) || tmp=\"\"\n\
\tif [ -n \"$tmp\" ] && \\\n\
\t\tgh release download graph-latest --pattern roteiro-graph.json \\\n\
\t\t\t--output \"$tmp\" --clobber >/dev/null 2>&1 && \\\n\
\t\troteiro load \"$tmp\" >/dev/null 2>&1; then\n\
\t\tloaded=1\n\
\tfi\n\
\t[ -n \"$tmp\" ] && rm -f \"$tmp\"\n\
fi\n\
# Rebuild locally only if the fast path didn't load a matching artifact.\n\
[ \"$loaded\" = 1 ] || roteiro sync --committed >/dev/null 2>&1 || true\n";

/// The step that renders the bundle, up to its directory.
pub const RENDER_OPEN: &'static str = "# Regenerate the local OKF bundle (a build-output; gitignore it) to match.\n\
if command -v roteiro >/dev/null 2>&1; then\n\
\troteiro render okf >/dev/null || echo 'roteiro: could not refresh the OKF bundle in ";

/// The step that renders the bundle, from its directory on.
pub const RENDER_CLOSE: &'static str = "/ — run `roteiro render okf` to see why' >&2\n\
fi\n";

/// What stands between the two marks in `AGENTS.md`.
pub const AGENTS_BODY: &'static str = "\n\
## Roteiro knowledge graph\n\
\n\
This repository has a Roteiro knowledge graph — code structure, authored\n\
intent (ADRs, blueprints) and their links in one provenance-tagged store\n\
(every fact labelled `derived` | `authored` | `inferred`). Prefer querying\n\
it over grepping when orienting.\n\
\n\
**Find, then explain:**\n\
\n\
- `roteiro search \"<text>\"` — ranked text search (names, keys, paths and\n\
captured prose); curated ADRs/blueprints rank first. The offline entry point\n\
for \"what/why\" questions — then `query` a returned key. (`roteiro serve\n\
--models` exposes the same as a `search` tool + an OpenAI `/v1` endpoint;\n\
MCP agents get `search`/`explain`/`path`/`debt` directly.)\n\
- `roteiro query <key> [--json]` — a node and its provenance-labelled edges.\n\
Keys: `sym:<lang>:<path>#<Name>`, `file:<path>`, `adr:<id>`.\n\
- `roteiro query --kind <kind>` — list nodes of a kind (`fn`, `adr`, …).\n\
- `roteiro context <key>` — a node's callers, callees and governing ADRs.\n\
- `roteiro path <a> <b>` · `roteiro debt` — connections and intent-debt.\n\
\n\
**Plan a change:** `roteiro spec context <topic>` → `spec scaffold … --kind adr`\n\
→ `spec draft <file>` (the first two need no model), then `roteiro check`.\n\
\n\
**Before finishing a change:** run `roteiro review [--json]` (a graph-grounded\n\
review of your change — callers/callees, governing ADRs, drift and blast\n\
radius) and `roteiro check` (fails on ADR/annotation drift; a managed\n\
`pre-commit` hook enforces it too, `git commit --no-verify` skips). `roteiro\n\
sync` refreshes the graph (git hooks do this automatically).\n\
\n\
For the full operational guide, see the installed skill at\n\
`.agents/skills/roteiro/SKILL.md`.\n";

// ---------------------------------------------------------------------------
// Hooks
// ---------------------------------------------------------------------------

/// The names of the managed hooks.
pub fn managed_hooks() -> (r: Vec<String>)
    ensures
        views(r@) == seq!["post-checkout"@, "post-merge"@, "post-commit"@, "pre-commit"@],
{
    let mut r: Vec<String> = Vec::new();
    r.push("post-checkout".to_owned());
    r.push("post-merge".to_owned());
    r.push("post-commit".to_owned());
    r.push("pre-commit".to_owned());
    assert(views(r@) =~= seq!["post-checkout"@, "post-merge"@, "post-commit"@, "pre-commit"@]);
    r
}

/// The step that renders the bundle.
pub open spec fn render_step() -> Seq<char> {
    RENDER_OPEN@ + BUNDLE_DIR@ + RENDER_CLOSE@
}

/// The step that renders the bundle. It reports its failure, so that a step that
/// can never succeed is not silent.
pub fn okf_refresh() -> (r: String)
    ensures
        r@ == render_step(),
{
    let mut s = RENDER_OPEN.to_owned();
    s.append(BUNDLE_DIR);
    s.append(RENDER_CLOSE);
    s
}

/// What follows the header of a hook. Neither option alters the pre-commit hook.
pub open spec fn hook_body(name: Seq<char>, fetch: bool, okf: bool) -> Seq<char> {
    if name == "pre-commit"@ {
        GATE@
    } else {
        let fresh = if fetch {
            FETCH_REFRESH@
        } else {
            REFRESH@
        };
        if okf {
            fresh + render_step()
        } else {
            fresh
        }
    }
}

/// The content of a managed hook.
pub open spec fn hook_of(name: Seq<char>, fetch: bool, okf: bool) -> Seq<char> {
    HOOK_HEADER@ + hook_body(name, fetch, okf)
}

/// The content of the managed hook `name`. With `fetch` the freshness hooks try
/// a published graph first; with `okf` they render the bundle too.
pub fn hook_script(name: &str, fetch: bool, okf: bool) -> (r: String)
    ensures
        r@ == hook_of(name@, fetch, okf),
{
    let mut s = HOOK_HEADER.to_owned();
    if same(name, "pre-commit") {
        s.append(GATE);
        return s;
    }
    let mut body = if fetch {
        FETCH_REFRESH.to_owned()
    } else {
        REFRESH.to_owned()
    };
    if okf {
        body.append(okf_refresh().as_str());
    }
    s.append(body.as_str());
    s
}

/// Whether `content` is a managed hook, safe to overwrite.
pub fn is_managed_hook(content: &str) -> (r: bool)
    ensures
        r == contains(content@, HOOK_MARKER@),
{
    has(content, HOOK_MARKER)
}

/// What became of installing one file.
#[derive(Debug, Clone, Copy, PartialEq, Eq, Structural)]
pub enum HookOutcome {
    /// It was newly created.
    Installed,
    /// A managed one was renewed.
    Updated,
    /// A foreign one was left as it was.
    SkippedForeign,
}

/// What installing does where `existing` stands, or nothing does.
pub open spec fn outcome_of(existing: Option<Seq<char>>) -> HookOutcome {
    match existing {
        None => HookOutcome::Installed,
        Some(text) => if contains(text, HOOK_MARKER@) {
            HookOutcome::Updated
        } else {
            HookOutcome::SkippedForeign
        },
    }
}

/// What stands there after installing `new`.
pub open spec fn left_behind(existing: Option<Seq<char>>, new: Seq<char>) -> Seq<char> {
    match (existing, outcome_of(existing)) {
        (Some(text), HookOutcome::SkippedForeign) => text,
        _ => new,
    }
}

fn install_outcome(existing: &Option<String>) -> (r: HookOutcome)
    ensures
        r == outcome_of(opt_view(*existing)),
{
    match existing {
        None => HookOutcome::Installed,
        Some(text) => if has(text.as_str(), HOOK_MARKER) {
            HookOutcome::Updated
        } else {
            HookOutcome::SkippedForeign
        },
    }
}

/// What installing the hook `name` over `existing` comes to, and what is to be
/// written, if anything.
pub fn install_hook(existing: &Option<String>, name: &str, fetch: bool, okf: bool) -> (r: (
    HookOutcome,
    Option<String>,
))
    ensures
        r.0 == outcome_of(opt_view(*existing)),
        opt_view(r.1) == (if r.0 == HookOutcome::SkippedForeign {
            None
        } else {
            Some(hook_of(name@, fetch, okf))
        }),
{
    let outcome = install_outcome(existing);
    match outcome {
        HookOutcome::SkippedForeign => (outcome, None),
        _ => (outcome, Some(hook_script(name, fetch, okf))),
    }
}

// ---------------------------------------------------------------------------
// The skill
// ---------------------------------------------------------------------------

/// Whether `content` is the managed skill, safe to overwrite.
pub fn is_managed_skill(content: &str) -> (r: bool)
    ensures
        r == contains(content@, HOOK_MARKER@),
{
    has(content, HOOK_MARKER)
}

/// Where a skill installed under `base` lies.
pub open spec fn skill_path_of(base: Seq<char>) -> Seq<char> {
    joined(joined(joined(base, "skills"@), "roteiro"@), "SKILL.md"@)
}

/// Where a skill installed under `base_dir` lies.
pub fn skill_path(base_dir: &str) -> (r: String)
    ensures
        r@ == skill_path_of(base_dir@),
{
    let a = join_path(base_dir, "skills");
    let b = join_path(a.as_str(), "roteiro");
    join_path(b.as_str(), "SKILL.md")
}

/// What installing `skill` over `existing` comes to, and what is to be written,
/// if anything.
pub fn install_skill(existing: &Option<String>, skill: &str) -> (r: (HookOutcome, Option<String>))
    ensures
        r.0 == outcome_of(opt_view(*existing)),
        opt_view(r.1) == (if r.0 == HookOutcome::SkippedForeign {
            None
        } else {
            Some(skill@)
        }),
{
    let outcome = install_outcome(existing);
    match outcome {
        HookOutcome::SkippedForeign => (outcome, None),
        _ => (outcome, Some(skill.to_owned())),
    }
}

// ---------------------------------------------------------------------------
// `AGENTS.md`
// ---------------------------------------------------------------------------

/// The managed section, from mark to mark.
pub open spec fn section_core() -> Seq<char> {
    AGENTS_MARKER@ + AGENTS_BODY@ + AGENTS_MARKER@
}

/// The managed section of `AGENTS.md`.
pub fn agents_section() -> (r: String)
    ensures
        r@ == section_core() + "\n"@,
{
    let mut s = AGENTS_MARKER.to_owned();
    s.append(AGENTS_BODY);
    s.append(AGENTS_MARKER);
    s.append("\n");
    s
}

/// The managed section opens at the place `i` of `s`.
pub open spec fn opens_at(s: Seq<char>, i: int) -> bool {
    occurs_at(s, OPENING@, i) || occurs_at(s, OPENING_CRLF@, i)
}

/// A managed section of `s` reaches from `start` to `end`: from where one opens
/// to the end of the next mark, which does not itself open one.
pub open spec fn section_at(s: Seq<char>, start: int, end: int) -> bool {
    let closing = end - AGENTS_MARKER@.len();
    &&& opens_at(s, start)
    &&& first_at(s, AGENTS_MARKER@, start + AGENTS_MARKER@.len(), closing)
    &&& !opens_at(s, closing)
}

/// A managed section with its own first line stands in `s`.
pub open spec fn has_section(s: Seq<char>) -> bool {
    exists|start: int, end: int| section_at(s, start, end)
}

/// The first managed section of `s` reaches from `start` to `end`.
pub open spec fn headed_at(s: Seq<char>, start: int, end: int) -> bool {
    &&& section_at(s, start, end)
    &&& forall|k: int, j: int| k < start ==> !#[trigger] section_at(s, k, j)
}

/// The only two marks of `s` reach from `start` to `end`.
pub open spec fn pair_at(s: Seq<char>, start: int, end: int) -> bool {
    let m = AGENTS_MARKER@;
    &&& first_at(s, m, 0, start)
    &&& first_at(s, m, start + m.len(), end - m.len())
    &&& forall|i: int| end <= i ==> !occurs_at(s, m, i)
}

/// The managed block of `s` reaches from `start` to `end`, both marks with it: the
/// first section with its own first line; where there is none, what stands
/// between two marks, if they are the only ones.
pub open spec fn block_at(s: Seq<char>, start: int, end: int) -> bool {
    if has_section(s) {
        headed_at(s, start, end)
    } else {
        pair_at(s, start, end)
    }
}

fn does_open_at(s: &Vec<char>, i: usize) -> (r: bool)
    requires
        i <= s@.len(),
    ensures
        r == opens_at(s@, i as int),
{
    stands_at(s, &chars_of(OPENING), i) || stands_at(s, &chars_of(OPENING_CRLF), i)
}

/// Where the first managed section of `content` stands, if it has one.
fn headed_range(content: &Vec<char>) -> (r: Option<(usize, usize)>)
    ensures
        r matches Some((start, end)) ==> headed_at(content@, start as int, end as int) && end
            <= content@.len() && start <= end,
        r is None ==> !has_section(content@),
{
    let marker = chars_of(AGENTS_MARKER);
    let len: usize = content.len();
    let mut from: usize = 0;
    proof {
        marker_ends();
    }
    loop
        invariant
            len == content@.len(),
            marker@ == AGENTS_MARKER@,
            marker@.len() == 24,
            from <= content@.len(),
            forall|k: int, j: int| k < from ==> !#[trigger] section_at(content@, k, j),
        decreases content@.len() - from,
    {
        let start: usize = match find_from(content, &marker, from) {
            Some(i) => i,
            None => {
                proof {
                    assert forall|a: int, b: int| !section_at(content@, a, b) by {
                        if section_at(content@, a, b) {
                            an_opening_is_a_mark(content@, a);
                        }
                    }
                }
                return None;
            },
        };
        assert(start + marker@.len() <= len);
        proof {
            assert forall|k: int, j: int| k < start implies !#[trigger] section_at(
                content@,
                k,
                j,
            ) by {
                if section_at(content@, k, j) {
                    an_opening_is_a_mark(content@, k);
                }
            }
        }
        let after: usize = start + marker.len();
        if !does_open_at(content, start) {
            proof {
                none_opens_within(content@, start as int, after as int);
            }
            from = after;
            continue;
        }
        let closing: usize = match find_from(content, &marker, after) {
            Some(i) => i,
            None => {
                proof {
                    assert forall|a: int, b: int| !section_at(content@, a, b) by {
                        if section_at(content@, a, b) {
                            an_opening_is_a_mark(content@, a);
                            if start < a {
                                marks_are_apart(content@, start as int, a);
                            }
                            assert(occurs_at(content@, AGENTS_MARKER@, b - AGENTS_MARKER@.len()));
                        }
                    }
                }
                return None;
            },
        };
        assert(closing + marker@.len() <= len);
        if !does_open_at(content, closing) {
            assert(section_at(content@, start as int, closing + marker@.len()));
            return Some((start, closing + marker.len()));
        }
        proof {
            none_opens_within(content@, start as int, closing as int);
            assert forall|k: int, j: int| k < closing implies !#[trigger] section_at(
                content@,
                k,
                j,
            ) by {
                if section_at(content@, k, j) && k == start {
                    let e = j - AGENTS_MARKER@.len();
                    if e < closing {
                        assert(!occurs_at(content@, AGENTS_MARKER@, e));
                    } else if closing < e {
                        assert(!occurs_at(content@, AGENTS_MARKER@, closing as int));
                    }
                }
            }
        }
        from = closing;
    }
}

/// Where the managed block of `content` stands, if it has one, counted in
/// characters.
pub fn managed_block_range(content: &Vec<char>) -> (r: Option<(usize, usize)>)
    ensures
        r matches Some((start, end)) ==> block_at(content@, start as int, end as int) && end
            <= content@.len() && start <= end,
        r is None ==> forall|start: int, end: int| !block_at(content@, start, end),
{
    match headed_range(content) {
        Some((start, end)) => {
            assert(section_at(content@, start as int, end as int));
            return Some((start, end));
        },
        None => {},
    }
    let marker = chars_of(AGENTS_MARKER);
    let len: usize = content.len();
    let start: usize = match find_from(content, &marker, 0) {
        Some(i) => i,
        None => {
            return None;
        },
    };
    assert(start + marker@.len() <= len);
    let closing: usize = match find_from(content, &marker, start + marker.len()) {
        Some(i) => i,
        None => {
            proof {
                assert forall|a: int, b: int| !block_at(content@, a, b) by {
                    if block_at(content@, a, b) {
                        only_first(content@, AGENTS_MARKER@, 0, a, start as int);
                        assert(occurs_at(content@, AGENTS_MARKER@, b - AGENTS_MARKER@.len()));
                    }
                }
            }
            return None;
        },
    };
    assert(closing + marker@.len() <= len);
    let end: usize = closing + marker.len();
    match find_from(content, &marker, end) {
        Some(third) => {
            proof {
                assert forall|a: int, b: int| !block_at(content@, a, b) by {
                    if block_at(content@, a, b) {
                        let m = AGENTS_MARKER@;
                        only_first(content@, m, 0, a, start as int);
                        only_first(content@, m, start + m.len(), b - m.len(), closing as int);
                        assert(!occurs_at(content@, m, third as int));
                    }
                }
            }
            None
        },
        None => Some((start, end)),
    }
}

proof fn only_first(s: Seq<char>, p: Seq<char>, from: int, i: int, j: int)
    requires
        first_at(s, p, from, i),
        first_at(s, p, from, j),
    ensures
        i == j,
{
    if i < j {
        assert(!occurs_at(s, p, i));
    } else if j < i {
        assert(!occurs_at(s, p, j));
    }
}

/// What is put between existing text and a section that is appended to it.
pub open spec fn gap(existing: Seq<char>) -> Seq<char> {
    if existing.last() == '\n' {
        "\n"@
    } else {
        "\n"@ + "\n"@
    }
}

/// `now` is `existing` with the managed section in it: in place of the block it
/// had, or behind what it was.
pub open spec fn agents_updated(existing: Seq<char>, now: Seq<char>) -> bool {
    if exists|start: int, end: int| block_at(existing, start, end) {
        exists|start: int, end: int|
            #[trigger] block_at(existing, start, end) && now == existing.take(start)
                + section_core() + existing.skip(end)
    } else if existing.len() == 0 {
        now == section_core() + "\n"@
    } else {
        now == existing + gap(existing) + (section_core() + "\n"@)
    }
}

proof fn marker_ends()
    ensures
        AGENTS_MARKER@.len() == 24,
        AGENTS_MARKER@[0] == '<',
        AGENTS_MARKER@[1] == '!',
        AGENTS_MARKER@.last() == '>',
        forall|i: int| 0 <= i < AGENTS_MARKER@.len() ==> AGENTS_MARKER@[i] != '\n',
        forall|i: int| 0 < i < AGENTS_MARKER@.len() ==> AGENTS_MARKER@[i] != '<',
        !is_white('>'),
        is_white('\n'),
{
    reveal_strlit("<!-- roteiro-managed -->");
}

/// Every opening begins with the mark, holds no other, and is longer than the
/// mark and a line end.
proof fn openings_are_marked()
    ensures
        forall|p: Seq<char>|
            p == OPENING@ || p == OPENING_CRLF@ ==> {
                &&& p.len() > 25
                &&& #[trigger] p.take(24) == AGENTS_MARKER@
                &&& forall|i: int| 0 < i < p.len() ==> p[i] != '<'
            },
{
    reveal_strlit("<!-- roteiro-managed -->");
    reveal_strlit("<!-- roteiro-managed -->\n## Roteiro knowledge graph\n");
    reveal_strlit("<!-- roteiro-managed -->\r\n## Roteiro knowledge graph\r\n");
    assert(OPENING@.take(24) =~= AGENTS_MARKER@);
    assert(OPENING_CRLF@.take(24) =~= AGENTS_MARKER@);
}

proof fn an_opening_is_a_mark(s: Seq<char>, i: int)
    requires
        opens_at(s, i),
    ensures
        occurs_at(s, AGENTS_MARKER@, i),
{
    openings_are_marked();
    marker_ends();
    let p = if occurs_at(s, OPENING@, i) {
        OPENING@
    } else {
        OPENING_CRLF@
    };
    assert(p.take(24) == AGENTS_MARKER@);
    assert(s.subrange(i, i + 24) =~= s.subrange(i, i + p.len()).take(24));
}

/// An opening ends before the next mark begins.
proof fn an_opening_ends_before(s: Seq<char>, i: int, k: int)
    requires
        opens_at(s, i),
        occurs_at(s, AGENTS_MARKER@, k),
        i < k,
    ensures
        opens_at(s.take(k), i),
        i + 24 <= k,
{
    openings_are_marked();
    marker_ends();
    let p = if occurs_at(s, OPENING@, i) {
        OPENING@
    } else {
        OPENING_CRLF@
    };
    assert(p.take(24) == AGENTS_MARKER@);
    assert(s.subrange(k, k + 24)[0] == '<');
    if k < i + p.len() {
        assert(s.subrange(i, i + p.len())[k - i] == s[k]);
    }
    assert(s.take(k).subrange(i, i + p.len()) =~= p);
}

proof fn marks_are_apart(s: Seq<char>, i: int, k: int)
    requires
        occurs_at(s, AGENTS_MARKER@, i),
        occurs_at(s, AGENTS_MARKER@, k),
        i < k,
    ensures
        i + 24 <= k,
{
    marker_ends();
    assert(s.subrange(k, k + 24)[0] == '<');
    if k < i + 24 {
        assert(s.subrange(i, i + 24)[k - i] == s[k]);
    }
}

/// Nothing opens between two places with no mark between them.
proof fn none_opens_within(s: Seq<char>, start: int, end: int)
    requires
        occurs_at(s, AGENTS_MARKER@, start),
        forall|k: int| start + 24 <= k < end ==> !occurs_at(s, AGENTS_MARKER@, k),
    ensures
        forall|k: int| start < k < end ==> !opens_at(s, k),
{
    assert forall|k: int| start < k < end implies !opens_at(s, k) by {
        if opens_at(s, k) {
            an_opening_is_a_mark(s, k);
            marks_are_apart(s, start, k);
        }
    }
}

proof fn section_trims()
    ensures
        trim_end_of(section_core() + "\n"@) == section_core(),
{
    marker_ends();
    reveal_strlit("\n");
    let s = section_core() + "\n"@;
    assert(s.last() == '\n');
    assert(s.drop_last() =~= section_core());
    assert(section_core().last() == AGENTS_MARKER@.last());
    assert(trim_end_of(section_core()) == section_core());
    assert(trim_end_of(s) == trim_end_of(s.drop_last()));
}

/// The content of `AGENTS.md` with the managed section renewed or added.
pub fn updated_agents(existing: &str) -> (r: String)
    ensures
        agents_updated(existing@, r@),
{
    let section = agents_section();
    let v = chars_of(existing);
    match managed_block_range(&v) {
        Some((start, end)) => {
            let mut s = string_of(&v, 0, start);
            s.append(trim_end(section.as_str()).as_str());
            s.append(string_of(&v, end, v.len()).as_str());
            proof {
                section_trims();
                assert(v@.subrange(0, start as int) =~= existing@.take(start as int));
                assert(v@.subrange(end as int, v@.len() as int) =~= existing@.skip(end as int));
                assert(block_at(existing@, start as int, end as int));
            }
            s
        },
        None => {
            if v.len() == 0 {
                return section;
            }
            let mut sep = "\n".to_owned();
            if v[v.len() - 1] != '\n' {
                sep.append("\n");
            }
            let mut s = existing.to_owned();
            s.append(sep.as_str());
            s.append(section.as_str());
            s
        },
    }
}

/// What `AGENTS.md` is to hold in place of `existing`; `None` where that is what
/// it holds.
pub fn ensure_agents(existing: &str) -> (r: Option<String>)
    ensures
        r matches Some(s) ==> agents_updated(existing@, s@) && s@ != existing@,
        r is None ==> agents_updated(existing@, existing@),
        existing@.len() == 0 ==> r is Some,
{
    let updated = updated_agents(existing);
    proof {
        marker_ends();
        if agents_updated(existing@, existing@) && existing@.len() == 0 {
            update_settles(existing@, existing@);
        }
    }
    if same(updated.as_str(), existing) {
        None
    } else {
        Some(updated)
    }
}

// ---------------------------------------------------------------------------
// Laws
// ---------------------------------------------------------------------------

/// The section begins with its opening, and holds no mark between its two.
proof fn body_facts()
    ensures
        section_core().len() >= OPENING@.len(),
        section_core().take(OPENING@.len() as int) == OPENING@,
        forall|i: int| 0 <= i < AGENTS_BODY@.len() ==> AGENTS_BODY@[i] != '!',
{
    reveal_strlit(
        "\n\
## Roteiro knowledge graph\n\
\n\
This repository has a Roteiro knowledge graph — code structure, authored\n\
intent (ADRs, blueprints) and their links in one provenance-tagged store\n\
(every fact labelled `derived` | `authored` | `inferred`). Prefer querying\n\
it over grepping when orienting.\n\
\n\
**Find, then explain:**\n\
\n\
- `roteiro search \"<text>\"` — ranked text search (names, keys, paths and\n\
captured prose); curated ADRs/blueprints rank first. The offline entry point\n\
for \"what/why\" questions — then `query` a returned key. (`roteiro serve\n\
--models` exposes the same as a `search` tool + an OpenAI `/v1` endpoint;\n\
MCP agents get `search`/`explain`/`path`/`debt` directly.)\n\
- `roteiro query <key> [--json]` — a node and its provenance-labelled edges.\n\
Keys: `sym:<lang>:<path>#<Name>`, `file:<path>`, `adr:<id>`.\n\
- `roteiro query --kind <kind>` — list nodes of a kind (`fn`, `adr`, …).\n\
- `roteiro context <key>` — a node's callers, callees and governing ADRs.\n\
- `roteiro path <a> <b>` · `roteiro debt` — connections and intent-debt.\n\
\n\
**Plan a change:** `roteiro spec context <topic>` → `spec scaffold … --kind adr`\n\
→ `spec draft <file>` (the first two need no model), then `roteiro check`.\n\
\n\
**Before finishing a change:** run `roteiro review [--json]` (a graph-grounded\n\
review of your change — callers/callees, governing ADRs, drift and blast\n\
radius) and `roteiro check` (fails on ADR/annotation drift; a managed\n\
`pre-commit` hook enforces it too, `git commit --no-verify` skips). `roteiro\n\
sync` refreshes the graph (git hooks do this automatically).\n\
\n\
For the full operational guide, see the installed skill at\n\
`.agents/skills/roteiro/SKILL.md`.\n",
    );
    reveal_strlit("<!-- roteiro-managed -->");
    reveal_strlit("<!-- roteiro-managed -->\n## Roteiro knowledge graph\n");
    assert(section_core().take(OPENING@.len() as int) =~= OPENING@);
}

/// The section opens as one, wherever it stands.
proof fn the_section_opens(pre: Seq<char>, post: Seq<char>)
    ensures
        opens_at(pre + section_core() + post, pre.len() as int),
{
    body_facts();
    let u = pre + section_core() + post;
    let s = pre.len() as int;
    assert(u.subrange(s, s + OPENING@.len()) =~= section_core().take(OPENING@.len() as int));
}

/// Wherever the section stands, it is one, unless what follows makes its last
/// mark open another.
proof fn the_section_is_one(pre: Seq<char>, post: Seq<char>)
    requires
        !opens_at(AGENTS_MARKER@ + post, 0),
    ensures
        section_at(
            pre + section_core() + post,
            pre.len() as int,
            (pre.len() + section_core().len()) as int,
        ),
{
    marker_ends();
    the_section_opens(pre, post);
    core_marks(pre, post);
    let m = AGENTS_MARKER@;
    let u = pre + section_core() + post;
    let t = pre.len() + section_core().len() - 24;
    assert(u.skip(t) =~= m + post);
    opens_by_what_follows(u, t);
}

/// Whether a section opens somewhere depends on what follows there alone.
proof fn opens_by_what_follows(s: Seq<char>, i: int)
    requires
        0 <= i <= s.len(),
    ensures
        opens_at(s, i) == opens_at(s.skip(i), 0),
{
    let rest = s.skip(i);
    assert forall|p: Seq<char>| #[trigger] occurs_at(s, p, i) == occurs_at(rest, p, 0) by {
        if i + p.len() <= s.len() {
            assert(s.subrange(i, i + p.len()) =~= rest.subrange(0, p.len() as int));
        }
    }
    assert(occurs_at(s, OPENING@, i) == occurs_at(rest, OPENING@, 0));
    assert(occurs_at(s, OPENING_CRLF@, i) == occurs_at(rest, OPENING_CRLF@, 0));
}

/// What stands in a text stands in any text that begins with it.
proof fn stands_in_longer(s: Seq<char>, n: int, p: Seq<char>, i: int)
    requires
        0 <= n <= s.len(),
        occurs_at(s.take(n), p, i),
    ensures
        occurs_at(s, p, i),
{
    assert(s.take(n).subrange(i, i + p.len()) =~= s.subrange(i, i + p.len()));
}

/// What stands in a text up to a place stands in what the text is up to there.
proof fn stands_in_shorter(s: Seq<char>, n: int, p: Seq<char>, i: int)
    requires
        0 <= n <= s.len(),
        occurs_at(s, p, i),
        i + p.len() <= n,
    ensures
        occurs_at(s.take(n), p, i),
{
    assert(s.take(n).subrange(i, i + p.len()) =~= s.subrange(i, i + p.len()));
}

/// A section that ends before the place `n` of one text is one of another that
/// is the same up to there, unless its last mark opens another section there.
proof fn a_section_is_shared(a: Seq<char>, b: Seq<char>, n: int, k: int, j: int)
    requires
        0 <= n <= a.len(),
        n <= b.len(),
        a.take(n) == b.take(n),
        section_at(a, k, j),
        j <= n,
        !opens_at(b, j - 24),
    ensures
        section_at(b, k, j),
{
    marker_ends();
    let m = AGENTS_MARKER@;
    let e = j - 24;
    an_opening_is_a_mark(a, k);
    an_opening_ends_before(a, k, e);
    let p = if occurs_at(a.take(e), OPENING@, k) {
        OPENING@
    } else {
        OPENING_CRLF@
    };
    assert(a.take(e) =~= a.take(n).take(e));
    assert(b.take(e) =~= b.take(n).take(e));
    stands_in_longer(b, e, p, k);
    stands_in_shorter(a, n, m, e);
    stands_in_longer(b, n, m, e);
    assert forall|i: int| k + m.len() <= i < e implies !occurs_at(b, m, i) by {
        if occurs_at(b, m, i) {
            stands_in_shorter(b, n, m, i);
            stands_in_longer(a, n, m, i);
        }
    }
}

proof fn only_block(s: Seq<char>, a: int, b: int, c: int, d: int)
    requires
        block_at(s, a, b),
        block_at(s, c, d),
    ensures
        a == c,
        b == d,
{
    let m = AGENTS_MARKER@;
    if has_section(s) {
        assert(section_at(s, a, b));
        assert(section_at(s, c, d));
    } else {
        only_first(s, m, 0, a, c);
    }
    only_first(s, m, a + m.len(), b - m.len(), d - m.len());
}

/// Where there is a section, there is a first one.
proof fn a_section_means_a_block(s: Seq<char>, k: int, j: int)
    requires
        section_at(s, k, j),
    ensures
        exists|start: int, end: int| block_at(s, start, end),
        has_section(s),
    decreases k,
{
    if exists|c: int, d: int| c < k && #[trigger] section_at(s, c, d) {
        let (c, d) = choose|c: int, d: int| c < k && #[trigger] section_at(s, c, d);
        a_section_means_a_block(s, c, d);
    } else {
        assert(headed_at(s, k, j));
        assert(block_at(s, k, j));
    }
}

proof fn core_stands_between(pre: Seq<char>, c: Seq<char>, post: Seq<char>)
    ensures
        (pre + c + post).subrange(pre.len() as int, (pre.len() + c.len()) as int) == c,
{
    assert((pre + c + post).subrange(pre.len() as int, (pre.len() + c.len()) as int) =~= c);
}

proof fn headed_settles(existing: Seq<char>, start: int, end: int)
    requires
        headed_at(existing, start, end),
    ensures
        ({
            let now = existing.take(start) + section_core() + existing.skip(end);
            block_at(now, start, start + section_core().len()) && now.subrange(
                start,
                start + section_core().len(),
            ) == section_core()
        }),
{
    marker_ends();
    let m = AGENTS_MARKER@;
    let pre = existing.take(start);
    let post = existing.skip(end);
    let now = pre + section_core() + post;
    let closing = end - m.len();
    assert(existing.skip(closing) =~= existing.subrange(closing, end) + post);
    opens_by_what_follows(existing, closing);
    the_section_is_one(pre, post);
    the_section_opens(pre, post);
    an_opening_is_a_mark(now, start);
    core_stands_between(pre, section_core(), post);
    assert(now.take(start) =~= existing.take(start));
    assert forall|k: int, j: int| k < start implies !#[trigger] section_at(now, k, j) by {
        if section_at(now, k, j) {
            let e = j - m.len();
            an_opening_ends_before(now, k, start);
            if e < start {
                marks_are_apart(now, e, start);
                if opens_at(existing, e) {
                    an_opening_is_a_mark(existing, start);
                    an_opening_ends_before(existing, e, start);
                    let p = if occurs_at(existing.take(start), OPENING@, e) {
                        OPENING@
                    } else {
                        OPENING_CRLF@
                    };
                    stands_in_longer(now, start, p, e);
                }
                a_section_is_shared(now, existing, start, k, j);
            } else if start < e {
                assert(!occurs_at(now, m, start));
            }
        }
    }
}

/// The section holds two marks, at its ends.
proof fn core_marks(pre: Seq<char>, post: Seq<char>)
    ensures
        ({
            let u = pre + section_core() + post;
            let s = pre.len() as int;
            let t = s + section_core().len() - 24;
            &&& s + 24 <= t
            &&& occurs_at(u, AGENTS_MARKER@, s)
            &&& occurs_at(u, AGENTS_MARKER@, t)
            &&& forall|k: int| s < k < t ==> !occurs_at(u, AGENTS_MARKER@, k)
        }),
{
    marker_ends();
    body_facts();
    let m = AGENTS_MARKER@;
    let b = AGENTS_BODY@;
    let u = pre + section_core() + post;
    let s = pre.len() as int;
    let t = s + m.len() + b.len();
    assert(u.subrange(s, s + m.len()) =~= m);
    assert(u.subrange(t, t + m.len()) =~= m);
    assert forall|k: int| s < k < t implies !occurs_at(u, m, k) by {
        if occurs_at(u, m, k) {
            marks_are_apart(u, s, k);
            assert(u.subrange(k, k + m.len())[1] == '!');
            assert(u[k + 1] == '!');
            if k + 1 < t {
                assert(u[k + 1] == b[k + 1 - s - m.len()]);
            } else {
                assert(u[k + 1] == m[0]);
            }
        }
    }
}

/// No mark stands in `s`.
pub open spec fn no_mark(s: Seq<char>) -> bool {
    forall|i: int| !occurs_at(s, AGENTS_MARKER@, i)
}

/// The marks of `s` are two: one at `a` and one, behind it, at `b`.
pub open spec fn two_marks(s: Seq<char>, a: int, b: int) -> bool {
    &&& a < b
    &&& forall|i: int| #[trigger] occurs_at(s, AGENTS_MARKER@, i) <==> i == a || i == b
}

/// Between texts without a mark, the section's two marks are the only ones.
proof fn only_the_sections_marks(pre: Seq<char>, post: Seq<char>)
    requires
        no_mark(pre),
        no_mark(post),
    ensures
        two_marks(
            pre + section_core() + post,
            pre.len() as int,
            pre.len() + section_core().len() - 24,
        ),
{
    marker_ends();
    core_marks(pre, post);
    let m = AGENTS_MARKER@;
    let u = pre + section_core() + post;
    let s = pre.len() as int;
    let t = s + section_core().len() - 24;
    assert forall|i: int| #[trigger] occurs_at(u, m, i) <==> i == s || i == t by {
        if occurs_at(u, m, i) {
            if i < s {
                marks_are_apart(u, i, s);
                assert(u.take(s) =~= pre);
                stands_in_shorter(u, s, m, i);
            } else if t < i {
                marks_are_apart(u, t, i);
                assert(u.subrange(i, i + 24) =~= post.subrange(i - t - 24, i - t));
                assert(occurs_at(post, m, i - t - 24));
            }
        }
    }
}

/// Two marks that are the only ones are the ends of the block, whatever stands
/// between them.
pub proof fn two_marks_are_the_block(s: Seq<char>, a: int, b: int)
    requires
        two_marks(s, a, b),
    ensures
        block_at(s, a, b + 24),
{
    marker_ends();
    let m = AGENTS_MARKER@;
    assert(occurs_at(s, m, a));
    assert(occurs_at(s, m, b));
    marks_are_apart(s, a, b);
    assert(first_at(s, m, a + m.len(), b));
    assert forall|k: int, j: int| #[trigger] section_at(s, k, j) implies k == a && j == b + 24 by {
        an_opening_is_a_mark(s, k);
        assert(occurs_at(s, m, j - m.len()));
    }
}

proof fn pair_settles(existing: Seq<char>, start: int, end: int)
    requires
        pair_at(existing, start, end),
    ensures
        two_marks(existing, start, end - 24),
        ({
            let now = existing.take(start) + section_core() + existing.skip(end);
            two_marks(now, start, start + section_core().len() - 24) && block_at(
                now,
                start,
                start + section_core().len(),
            ) && now.subrange(start, start + section_core().len()) == section_core()
        }),
{
    marker_ends();
    let m = AGENTS_MARKER@;
    let pre = existing.take(start);
    let post = existing.skip(end);
    let now = pre + section_core() + post;
    let closing = end - 24;
    assert forall|i: int| #[trigger] occurs_at(existing, m, i) <==> i == start || i == closing by {
        if occurs_at(existing, m, i) {
            if start < i {
                marks_are_apart(existing, start, i);
            }
            if closing < i {
                marks_are_apart(existing, closing, i);
            }
        }
    }
    assert forall|i: int| !occurs_at(pre, m, i) by {
        if occurs_at(pre, m, i) {
            stands_in_longer(existing, start, m, i);
        }
    }
    assert forall|i: int| !occurs_at(post, m, i) by {
        if occurs_at(post, m, i) {
            assert(existing.subrange(end + i, end + i + 24) =~= post.subrange(i, i + 24));
            assert(occurs_at(existing, m, end + i));
        }
    }
    only_the_sections_marks(pre, post);
    two_marks_are_the_block(now, start, start + section_core().len() - 24);
    core_stands_between(pre, section_core(), post);
}

proof fn renewed_settles(existing: Seq<char>, start: int, end: int)
    requires
        block_at(existing, start, end),
    ensures
        ({
            let now = existing.take(start) + section_core() + existing.skip(end);
            block_at(now, start, start + section_core().len()) && now.subrange(
                start,
                start + section_core().len(),
            ) == section_core()
        }),
{
    if has_section(existing) {
        headed_settles(existing, start, end);
    } else {
        pair_settles(existing, start, end);
    }
}

/// Behind text without a section, an appended one is the first.
proof fn appended_is_first(existing: Seq<char>, k: int, j: int)
    requires
        existing.len() > 0,
        forall|start: int, end: int| !block_at(existing, start, end),
        k < (existing + gap(existing)).len(),
    ensures
        !section_at(existing + gap(existing) + section_core() + "\n"@, k, j),
{
    marker_ends();
    reveal_strlit("\n");
    let m = AGENTS_MARKER@;
    let pre = existing + gap(existing);
    let now = pre + section_core() + "\n"@;
    let n = pre.len() as int;
    let e = j - m.len();
    let l = existing.len() as int;
    if section_at(now, k, j) {
        the_section_opens(pre, "\n"@);
        an_opening_is_a_mark(now, n);
        an_opening_ends_before(now, k, n);
        if n < e {
            assert(!occurs_at(now, m, n));
        } else if e < n {
            marks_are_apart(now, e, n);
            if l < j {
                // The mark would run over a line end, and it holds none.
                let at = if e < l {
                    l
                } else {
                    e
                };
                assert(now[at] == '\n');
                assert(now.subrange(e, e + m.len())[at - e] == now[at]);
                assert(m[at - e] == '\n');
            }
            assert(now.take(l) =~= existing.take(l));
            assert(existing.take(l) =~= existing);
            if opens_at(existing, e) {
                let p = if occurs_at(existing, OPENING@, e) {
                    OPENING@
                } else {
                    OPENING_CRLF@
                };
                stands_in_longer(now, l, p, e);
            }
            a_section_is_shared(now, existing, l, k, j);
            a_section_means_a_block(existing, k, j);
        }
    }
}

/// A line end alone behind the section's last mark opens nothing.
proof fn a_line_end_opens_nothing()
    ensures
        !opens_at(AGENTS_MARKER@ + "\n"@, 0),
{
    marker_ends();
    openings_are_marked();
    reveal_strlit("\n");
    assert(OPENING@.take(24) == AGENTS_MARKER@);
    assert(OPENING_CRLF@.take(24) == AGENTS_MARKER@);
}

proof fn appended_settles(existing: Seq<char>)
    requires
        existing.len() > 0,
        forall|start: int, end: int| !block_at(existing, start, end),
    ensures
        ({
            let now = existing + gap(existing) + (section_core() + "\n"@);
            let s = (existing + gap(existing)).len() as int;
            block_at(now, s, s + section_core().len()) && now.subrange(s, s + section_core().len())
                == section_core()
        }),
{
    let c = section_core();
    let pre = existing + gap(existing);
    let now = pre + (c + "\n"@);
    let s = pre.len() as int;
    a_line_end_opens_nothing();
    the_section_is_one(pre, "\n"@);
    assert(pre + c + "\n"@ =~= now);
    assert(now.subrange(s, s + c.len()) =~= c);
    assert forall|k: int, j: int| k < s implies !#[trigger] section_at(now, k, j) by {
        appended_is_first(existing, k, j);
    }
}

proof fn created_settles()
    ensures
        block_at(section_core() + "\n"@, 0, section_core().len() as int),
        (section_core() + "\n"@).subrange(0, section_core().len() as int) == section_core(),
{
    let c = section_core();
    let pre = Seq::<char>::empty();
    a_line_end_opens_nothing();
    the_section_is_one(pre, "\n"@);
    assert(pre + c + "\n"@ =~= c + "\n"@);
    assert((c + "\n"@).subrange(0, c.len() as int) =~= c);
}

proof fn update_settles(existing: Seq<char>, now: Seq<char>) -> (r: (int, int))
    requires
        agents_updated(existing, now),
    ensures
        block_at(now, r.0, r.1),
        0 <= r.0 <= r.1 <= now.len(),
        now.subrange(r.0, r.1) == section_core(),
{
    let c = section_core();
    if exists|start: int, end: int| block_at(existing, start, end) {
        let (start, end) = choose|start: int, end: int|
            #[trigger] block_at(existing, start, end) && now == existing.take(start) + c
                + existing.skip(end);
        renewed_settles(existing, start, end);
        (start, start + c.len())
    } else if existing.len() == 0 {
        created_settles();
        (0, c.len() as int)
    } else {
        appended_settles(existing);
        let s = (existing + gap(existing)).len() as int;
        (s, s + c.len())
    }
}

/// Renewing the section again changes nothing: what an update leaves is what a
/// second one leaves, whatever marks stand in the text.
pub proof fn updating_twice_is_updating_once(existing: Seq<char>, now: Seq<char>, again: Seq<char>)
    requires
        agents_updated(existing, now),
        agents_updated(now, again),
    ensures
        again == now,
{
    let (s, e) = update_settles(existing, now);
    let (a, b) = choose|start: int, end: int|
        #[trigger] block_at(now, start, end) && again == now.take(start) + section_core() + now.skip(
            end,
        );
    only_block(now, s, e, a, b);
    assert(again =~= now);
}

/// Whatever stands outside the section stays, character for character, before
/// and behind it; text without a section is kept whole in front of it.
pub proof fn an_update_keeps_the_rest(existing: Seq<char>, now: Seq<char>)
    requires
        agents_updated(existing, now),
    ensures
        forall|start: int, end: int| #[trigger]
            block_at(existing, start, end) ==> now.take(start) == existing.take(start) && now.skip(
                start + section_core().len(),
            ) == existing.skip(end),
        (forall|start: int, end: int| !block_at(existing, start, end)) ==> now.take(
            existing.len() as int,
        ) == existing,
        contains(now, section_core()),
{
    let c = section_core();
    if exists|start: int, end: int| block_at(existing, start, end) {
        let (a, b) = choose|start: int, end: int|
            #[trigger] block_at(existing, start, end) && now == existing.take(start) + c
                + existing.skip(end);
        assert forall|start: int, end: int| #[trigger] block_at(existing, start, end) implies now.take(
            start,
        ) == existing.take(start) && now.skip(start + c.len()) == existing.skip(end) by {
            only_block(existing, a, b, start, end);
            assert(now.take(start) =~= existing.take(start));
            assert(now.skip(start + c.len()) =~= existing.skip(end));
        }
        assert(now.subrange(a, a + c.len()) =~= c);
        assert(occurs_at(now, c, a));
    } else if existing.len() == 0 {
        assert(now.take(0) =~= existing);
        assert(now.subrange(0, c.len() as int) =~= c);
        assert(occurs_at(now, c, 0));
    } else {
        let s = (existing + gap(existing)).len() as int;
        assert(now.take(existing.len() as int) =~= existing);
        assert(now.subrange(s, s + c.len()) =~= c);
        assert(occurs_at(now, c, s));
    }
}

/// However often the section is renewed, text that had no block is kept whole,
/// with whatever marks stand in it: no later update takes any of it for its own.
pub proof fn notes_outlive_every_update(notes: Seq<char>, now: Seq<char>, again: Seq<char>)
    requires
        forall|start: int, end: int| !block_at(notes, start, end),
        agents_updated(notes, now),
        agents_updated(now, again),
    ensures
        now.take(notes.len() as int) == notes,
        again.take(notes.len() as int) == notes,
{
    an_update_keeps_the_rest(notes, now);
    updating_twice_is_updating_once(notes, now, again);
}

/// A single mark claims nothing: text with one mark, or none, has no block.
pub proof fn a_mark_alone_claims_nothing(notes: Seq<char>, start: int, end: int)
    requires
        forall|i: int, j: int| #[trigger]
            occurs_at(notes, AGENTS_MARKER@, i) && #[trigger] occurs_at(notes, AGENTS_MARKER@, j)
                ==> i == j,
    ensures
        !block_at(notes, start, end),
{
    marker_ends();
    if block_at(notes, start, end) {
        if has_section(notes) {
            an_opening_is_a_mark(notes, start);
        }
        assert(occurs_at(notes, AGENTS_MARKER@, start));
        assert(occurs_at(notes, AGENTS_MARKER@, end - AGENTS_MARKER@.len()));
    }
}

proof fn unmarked_gets_a_block(existing: Seq<char>, now: Seq<char>) -> (r: (int, int))
    requires
        no_mark(existing),
        agents_updated(existing, now),
    ensures
        now == (if existing.len() == 0 {
            section_core() + "\n"@
        } else {
            existing + gap(existing) + (section_core() + "\n"@)
        }),
        two_marks(now, r.0, r.1),
        now.subrange(r.0, r.1 + 24) == section_core(),
{
    marker_ends();
    reveal_strlit("\n");
    let m = AGENTS_MARKER@;
    let c = section_core();
    assert forall|start: int, end: int| !block_at(existing, start, end) by {
        a_mark_alone_claims_nothing(existing, start, end);
    }
    let pre = if existing.len() == 0 {
        existing
    } else {
        existing + gap(existing)
    };
    assert forall|i: int| !occurs_at(pre, m, i) by {
        if occurs_at(pre, m, i) {
            if i + 24 <= existing.len() {
                assert(pre.subrange(i, i + 24) =~= existing.subrange(i, i + 24));
                assert(occurs_at(existing, m, i));
            } else {
                // It would run over a line end, and a mark holds none.
                assert(pre.subrange(i, i + 24).last() == pre[i + 23]);
                assert(pre[i + 23] == '\n');
            }
        }
    }
    only_the_sections_marks(pre, "\n"@);
    core_stands_between(pre, c, "\n"@);
    assert(now =~= pre + c + "\n"@);
    (pre.len() as int, pre.len() + c.len() - 24)
}

proof fn two_marks_keep_a_block(existing: Seq<char>, now: Seq<char>, a: int, b: int)
    requires
        two_marks(existing, a, b),
        agents_updated(existing, now),
    ensures
        now == existing.take(a) + section_core() + existing.skip(b + 24),
        two_marks(now, a, a + section_core().len() - 24),
        now.subrange(a, a + section_core().len()) == section_core(),
{
    marker_ends();
    let m = AGENTS_MARKER@;
    let c = section_core();
    two_marks_are_the_block(existing, a, b);
    let (start, end) = choose|start: int, end: int|
        #[trigger] block_at(existing, start, end) && now == existing.take(start) + c
            + existing.skip(end);
    only_block(existing, a, b + 24, start, end);
    assert(occurs_at(existing, m, a));
    assert(occurs_at(existing, m, b));
    marks_are_apart(existing, a, b);
    assert(pair_at(existing, a, b + 24));
    pair_settles(existing, a, b + 24);
}

/// There is one block. Text with no mark gets the section behind it; in text with
/// exactly two, what they enclose is replaced, and what stands before and behind
/// stays. Either way the result has two marks, with the section between them, and
/// a second update changes nothing.
pub proof fn there_is_one_block(existing: Seq<char>, now: Seq<char>, again: Seq<char>)
    requires
        no_mark(existing) || exists|a: int, b: int| two_marks(existing, a, b),
        agents_updated(existing, now),
        agents_updated(now, again),
    ensures
        exists|a: int, b: int| #[trigger]
            two_marks(now, a, b) && now.subrange(a, b + 24) == section_core(),
        no_mark(existing) ==> now == (if existing.len() == 0 {
            section_core() + "\n"@
        } else {
            existing + gap(existing) + (section_core() + "\n"@)
        }),
        forall|a: int, b: int| #[trigger]
            two_marks(existing, a, b) ==> now == existing.take(a) + section_core() + existing.skip(
                b + 24,
            ),
        again == now,
{
    updating_twice_is_updating_once(existing, now, again);
    assert forall|a: int, b: int| #[trigger] two_marks(existing, a, b) implies now == existing.take(
        a,
    ) + section_core() + existing.skip(b + 24) by {
        two_marks_keep_a_block(existing, now, a, b);
    }
    if no_mark(existing) {
        let (a, b) = unmarked_gets_a_block(existing, now);
        assert(two_marks(now, a, b));
    } else {
        let (a, b) = choose|a: int, b: int| two_marks(existing, a, b);
        two_marks_keep_a_block(existing, now, a, b);
        assert(two_marks(now, a, a + section_core().len() - 24));
    }
}

/// A foreign file is never touched, and a managed one is always renewed:
/// installing twice comes to the same as installing once.
pub proof fn installing_spares_the_foreign(existing: Option<Seq<char>>, new: Seq<char>)
    requires
        contains(new, HOOK_MARKER@),
    ensures
        existing matches Some(text) && !contains(text, HOOK_MARKER@) ==> left_behind(existing, new)
            == existing->0,
        (existing matches Some(text) ==> contains(text, HOOK_MARKER@)) ==> left_behind(existing, new)
            == new,
        left_behind(Some(left_behind(existing, new)), new) == left_behind(existing, new),
{
}

/// What is reported of an install tells what stood there: nothing, a managed file
/// or a foreign one.
pub proof fn an_outcome_tells_what_stood_there(existing: Option<Seq<char>>)
    ensures
        outcome_of(existing) == HookOutcome::Installed <==> existing is None,
        outcome_of(existing) == HookOutcome::Updated <==> existing is Some && contains(
            existing->0,
            HOOK_MARKER@,
        ),
        outcome_of(existing) == HookOutcome::SkippedForeign <==> existing is Some && !contains(
            existing->0,
            HOOK_MARKER@,
        ),
{
}

/// A skill lies in a directory of its own below the one it is installed under.
pub proof fn a_skill_has_its_own_directory(base: Seq<char>)
    requires
        base.len() > 0,
        base.last() != '/',
    ensures
        skill_path_of(base) == base + "/skills/roteiro/SKILL.md"@,
{
    reveal_strlit("skills");
    reveal_strlit("roteiro");
    reveal_strlit("SKILL.md");
    reveal_strlit("/");
    reveal_strlit("/skills/roteiro/SKILL.md");
    crate::config::paths::one_slash_between(base, "skills"@);
    let a = joined(base, "skills"@);
    crate::config::paths::one_slash_between(a, "roteiro"@);
    let b = joined(a, "roteiro"@);
    crate::config::paths::one_slash_between(b, "SKILL.md"@);
    assert(skill_path_of(base) =~= base + "/skills/roteiro/SKILL.md"@);
}

} // verus!
