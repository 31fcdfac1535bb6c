//! What the managed hooks hold, and what they never hold.
use vstd::prelude::*;

use crate::init::{
    hook_of, render_step, FETCH_REFRESH, GATE, HOOK_HEADER, HOOK_MARKER, REFRESH,
};
use crate::text::{contains, occurs_at};

verus! {

// ---------------------------------------------------------------------------
// The parts
// ---------------------------------------------------------------------------

/// What holds no line end stands in one of two texts, where the first is made of
/// whole lines.
proof fn stands_in_one(a: Seq<char>, b: Seq<char>, p: Seq<char>)
    requires
        a.len() > 0,
        a.last() == '\n',
        p.len() > 0,
        forall|i: int| 0 <= i < p.len() ==> p[i] != '\n',
    ensures
        contains(a + b, p) == (contains(a, p) || contains(b, p)),
{
    let n = a.len() as int;
    if contains(a + b, p) {
        let i = choose|i: int| occurs_at(a + b, p, i);
        if i + p.len() <= n {
            assert((a + b).subrange(i, i + p.len()) =~= a.subrange(i, i + p.len()));
            assert(occurs_at(a, p, i));
        } else if n <= i {
            assert((a + b).subrange(i, i + p.len()) =~= b.subrange(i - n, i - n + p.len()));
            assert(occurs_at(b, p, i - n));
        } else {
            assert((a + b).subrange(i, i + p.len())[n - 1 - i] == (a + b)[n - 1]);
        }
    }
    if contains(a, p) {
        let i = choose|i: int| occurs_at(a, p, i);
        assert((a + b).subrange(i, i + p.len()) =~= a.subrange(i, i + p.len()));
        assert(occurs_at(a + b, p, i));
    }
    if contains(b, p) {
        let i = choose|i: int| occurs_at(b, p, i);
        assert((a + b).subrange(n + i, n + i + p.len()) =~= b.subrange(i, i + p.len()));
        assert(occurs_at(a + b, p, n + i));
    }
}

/// What the header holds and does not hold.
proof fn header_facts()
    ensures
        HOOK_HEADER@.len() > 0,
        HOOK_HEADER@.last() == '\n',
        !contains(HOOK_HEADER@, "gh release download"@),
        !contains(HOOK_HEADER@, "\troteiro render okf >"@),
        !contains(HOOK_HEADER@, "; exit 0"@),
        !contains(HOOK_HEADER@, "roteiro sync"@),
        !contains(HOOK_HEADER@, "render okf"@),
{
    reveal_strlit(
        "#!/bin/sh\n\
# roteiro-managed: Roteiro knowledge-graph automation.\n\
# Delete this file to disable. Re-run `roteiro init` to reinstall.\n",
    );
    let s = HOOK_HEADER@;
    reveal_strlit("gh release download");
    assert forall|i: int| !occurs_at(s, "gh release download"@, i) by {
        if occurs_at(s, "gh release download"@, i) {
            let part = s.subrange(i, i + 19);
            assert(part[13] == s[i + 13]);
            assert(s[i + 13] == 'w');
            assert(i == 27);
            assert(part[0] == s[i]);
        }
    }
    reveal_strlit("\troteiro render okf >");
    assert forall|i: int| !occurs_at(s, "\troteiro render okf >"@, i) by {
        if occurs_at(s, "\troteiro render okf >"@, i) {
            let part = s.subrange(i, i + 21);
            assert(part[0] == s[i]);
            assert(s[i] == '\t');
        }
    }
    reveal_strlit("; exit 0");
    assert forall|i: int| !occurs_at(s, "; exit 0"@, i) by {
        if occurs_at(s, "; exit 0"@, i) {
            let part = s.subrange(i, i + 8);
            assert(part[0] == s[i]);
            assert(s[i] == ';');
        }
    }
    reveal_strlit("roteiro sync");
    assert forall|i: int| !occurs_at(s, "roteiro sync"@, i) by {
        if occurs_at(s, "roteiro sync"@, i) {
            let part = s.subrange(i, i + 12);
            assert(part[9] == s[i + 9]);
            assert(s[i + 9] == 'y');
        }
    }
    reveal_strlit("render okf");
    assert forall|i: int| !occurs_at(s, "render okf"@, i) by {
        if occurs_at(s, "render okf"@, i) {
            let part = s.subrange(i, i + 10);
            assert(part[8] == s[i + 8]);
            assert(s[i + 8] == 'k');
            assert(i == 29);
            assert(part[0] == s[i]);
        }
    }
}

/// What the commit hook's own part holds and does not hold.
proof fn gate_facts()
    ensures
        GATE@.len() > 0,
        GATE@.last() == '\n',
        contains(GATE@, "command -v roteiro >/dev/null 2>&1"@),
        contains(GATE@, "command -v roteiro"@),
        contains(GATE@, "roteiro check"@),
        contains(GATE@, "exit 1"@),
        contains(GATE@, "--no-verify"@),
        !contains(GATE@, "roteiro sync"@),
        !contains(GATE@, "render okf"@),
{
    reveal_strlit(
        "# Block a commit that introduces ADR/annotation drift. Validates the\n\
# staged index — exactly what this commit will record. Skip once with\n\
# `git commit --no-verify`.\n\
command -v roteiro >/dev/null 2>&1 || exit 0\n\
roteiro check --staged || {\n\
\techo 'roteiro: commit blocked by knowledge-graph drift (see above); use `git commit --no-verify` to override.' >&2\n\
\texit 1\n\
}\n",
    );
    let s = GATE@;
    reveal_strlit("command -v roteiro >/dev/null 2>&1");
    assert(s.subrange(167, 201) =~= "command -v roteiro >/dev/null 2>&1"@);
    assert(occurs_at(s, "command -v roteiro >/dev/null 2>&1"@, 167));
    reveal_strlit("command -v roteiro");
    assert(s.subrange(167, 185) =~= "command -v roteiro"@);
    assert(occurs_at(s, "command -v roteiro"@, 167));
    reveal_strlit("roteiro check");
    assert(s.subrange(212, 225) =~= "roteiro check"@);
    assert(occurs_at(s, "roteiro check"@, 212));
    reveal_strlit("exit 1");
    assert(s.subrange(357, 363) =~= "exit 1"@);
    assert(occurs_at(s, "exit 1"@, 357));
    reveal_strlit("--no-verify");
    assert(s.subrange(153, 164) =~= "--no-verify"@);
    assert(occurs_at(s, "--no-verify"@, 153));
    reveal_strlit("roteiro sync");
    assert forall|i: int| !occurs_at(s, "roteiro sync"@, i) by {
        if occurs_at(s, "roteiro sync"@, i) {
            let part = s.subrange(i, i + 12);
            assert(part[9] == s[i + 9]);
            assert(s[i + 9] == 'y');
            assert(i == 83 || i == 154 || i == 263 || i == 326);
            assert(part[0] == s[i]);
        }
    }
    reveal_strlit("render okf");
    assert forall|i: int| !occurs_at(s, "render okf"@, i) by {
        if occurs_at(s, "render okf"@, i) {
            let part = s.subrange(i, i + 10);
            assert(part[9] == s[i + 9]);
            assert(s[i + 9] == 'f');
            assert(i == 42 || i == 153 || i == 284 || i == 325);
            assert(part[0] == s[i]);
        }
    }
}

/// What the plain refresh holds and does not hold.
proof fn refresh_facts()
    ensures
        REFRESH@.len() > 0,
        REFRESH@.last() == '\n',
        contains(REFRESH@, "command -v roteiro >/dev/null 2>&1"@),
        contains(REFRESH@, "roteiro sync --committed"@),
        !contains(REFRESH@, "gh release download"@),
        !contains(REFRESH@, "\troteiro render okf >"@),
        !contains(REFRESH@, "; exit 0"@),
{
    reveal_strlit(
        "# Keep the Roteiro knowledge graph fresh after HEAD changes.\n\
command -v roteiro >/dev/null 2>&1 && roteiro sync --committed >/dev/null 2>&1 || true\n",
    );
    let s = REFRESH@;
    reveal_strlit("command -v roteiro >/dev/null 2>&1");
    assert(s.subrange(61, 95) =~= "command -v roteiro >/dev/null 2>&1"@);
    assert(occurs_at(s, "command -v roteiro >/dev/null 2>&1"@, 61));
    reveal_strlit("roteiro sync --committed");
    assert(s.subrange(99, 123) =~= "roteiro sync --committed"@);
    assert(occurs_at(s, "roteiro sync --committed"@, 99));
    reveal_strlit("gh release download");
    assert forall|i: int| !occurs_at(s, "gh release download"@, i) by {
        if occurs_at(s, "gh release download"@, i) {
            let part = s.subrange(i, i + 19);
            assert(part[13] == s[i + 13]);
            assert(s[i + 13] == 'w');
            assert(i == 9);
            assert(part[0] == s[i]);
        }
    }
    reveal_strlit("\troteiro render okf >");
    assert forall|i: int| !occurs_at(s, "\troteiro render okf >"@, i) by {
        if occurs_at(s, "\troteiro render okf >"@, i) {
            let part = s.subrange(i, i + 21);
            assert(part[0] == s[i]);
            assert(s[i] == '\t');
        }
    }
    reveal_strlit("; exit 0");
    assert forall|i: int| !occurs_at(s, "; exit 0"@, i) by {
        if occurs_at(s, "; exit 0"@, i) {
            let part = s.subrange(i, i + 8);
            assert(part[0] == s[i]);
            assert(s[i] == ';');
        }
    }
}

/// What the refresh that fetches first holds and does not hold.
proof fn fetch_facts()
    ensures
        FETCH_REFRESH@.len() > 0,
        FETCH_REFRESH@.last() == '\n',
        contains(FETCH_REFRESH@, "command -v roteiro >/dev/null 2>&1"@),
        contains(FETCH_REFRESH@, "roteiro sync --committed"@),
        contains(FETCH_REFRESH@, "gh release download"@),
        !contains(FETCH_REFRESH@, "\troteiro render okf >"@),
        !contains(FETCH_REFRESH@, "; exit 0"@),
{
    reveal_strlit(
        "# Keep the Roteiro knowledge graph fresh after HEAD changes.\n\
command -v roteiro >/dev/null 2>&1 || exit 0\n\
# Opt-in fast path (`roteiro init --fetch`): try the CI-published graph\n\
# artifact before rebuilding. `roteiro load` refuses an artifact whose tree\n\
# does not match HEAD, so a stale asset falls through to a local rebuild.\n\
# A flag records success rather than `exit`ing, so any step appended below\n\
# (e.g. --okf's render) still runs.\n\
loaded=0\n\
if command -v gh >/dev/null 2>&1; then\n\
\t# Portable temp file: GNU `mktemp` needs no args; BSD/macOS needs a\n\
\t# template, so fall back to `-t`.\n\
\ttmp=$(mktemp 2>/dev/null || mktemp -t roteiro-graph 2>/dev/null) || tmp=\"\"\n\
\tif [ -n \"$tmp\" ] && \\\n\
\t\tgh release download graph-latest --pattern roteiro-graph.json \\\n\
\t\t\t--output \"$tmp\" --clobber >/dev/null 2>&1 && \\\n\
\t\troteiro load \"$tmp\" >/dev/null 2>&1; then\n\
\t\tloaded=1\n\
\tfi\n\
\t[ -n \"$tmp\" ] && rm -f \"$tmp\"\n\
fi\n\
# Rebuild locally only if the fast path didn't load a matching artifact.\n\
[ \"$loaded\" = 1 ] || roteiro sync --committed >/dev/null 2>&1 || true\n",
    );
    let s = FETCH_REFRESH@;
    reveal_strlit("command -v roteiro >/dev/null 2>&1");
    assert(s.subrange(61, 95) =~= "command -v roteiro >/dev/null 2>&1"@);
    assert(occurs_at(s, "command -v roteiro >/dev/null 2>&1"@, 61));
    reveal_strlit("roteiro sync --committed");
    assert(s.subrange(993, 1017) =~= "roteiro sync --committed"@);
    assert(occurs_at(s, "roteiro sync --committed"@, 993));
    reveal_strlit("gh release download");
    assert(s.subrange(692, 711) =~= "gh release download"@);
    assert(occurs_at(s, "gh release download"@, 692));
    reveal_strlit("\troteiro render okf >");
    assert forall|i: int| !occurs_at(s, "\troteiro render okf >"@, i) by {
        if occurs_at(s, "\troteiro render okf >"@, i) {
            let part = s.subrange(i, i + 21);
            assert(part[17] == s[i + 17]);
            assert(s[i + 17] == 'k');
            assert(i == 2 || i == 397 || i == 499 || i == 563 || i == 582 || i == 604);
            assert(part[0] == s[i]);
        }
    }
    reveal_strlit("; exit 0");
    assert forall|i: int| !occurs_at(s, "; exit 0"@, i) by {
        if occurs_at(s, "; exit 0"@, i) {
            let part = s.subrange(i, i + 8);
            assert(part[3] == s[i + 3]);
            assert(s[i + 3] == 'x');
            assert(i == 97 || i == 364);
            assert(part[0] == s[i]);
        }
    }
}

/// What the step that renders the bundle holds and does not hold.
proof fn render_facts()
    ensures
        render_step().len() > 0,
        render_step().last() == '\n',
        contains(render_step(), "\troteiro render okf >"@),
        !contains(render_step(), "gh release download"@),
        !contains(render_step(), "; exit 0"@),
{
    reveal_strlit(
        "# Regenerate the local OKF bundle (a build-output; gitignore it) to match.\n\
if command -v roteiro >/dev/null 2>&1; then\n\
\troteiro render okf >/dev/null || echo 'roteiro: could not refresh the OKF bundle in okf/ — run `roteiro render okf` to see why' >&2\n\
fi\n",
    );
    reveal_strlit(
        "# Regenerate the local OKF bundle (a build-output; gitignore it) to match.\n\
if command -v roteiro >/dev/null 2>&1; then\n\
\troteiro render okf >/dev/null || echo 'roteiro: could not refresh the OKF bundle in ",
    );
    reveal_strlit("okf");
    reveal_strlit(
        "/ — run `roteiro render okf` to see why' >&2\n\
fi\n",
    );
    let s =
        "# Regenerate the local OKF bundle (a build-output; gitignore it) to match.\n\
if command -v roteiro >/dev/null 2>&1; then\n\
\troteiro render okf >/dev/null || echo 'roteiro: could not refresh the OKF bundle in okf/ — run `roteiro render okf` to see why' >&2\n\
fi\n"@;
    assert(render_step() =~= s);
    reveal_strlit("\troteiro render okf >");
    assert(s.subrange(119, 140) =~= "\troteiro render okf >"@);
    assert(occurs_at(s, "\troteiro render okf >"@, 119));
    reveal_strlit("gh release download");
    assert forall|i: int| !occurs_at(s, "gh release download"@, i) by {
        if occurs_at(s, "gh release download"@, i) {
            let part = s.subrange(i, i + 19);
            assert(part[13] == s[i + 13]);
            assert(s[i + 13] == 'w');
            assert(i == 230);
            assert(part[0] == s[i]);
        }
    }
    reveal_strlit("; exit 0");
    assert forall|i: int| !occurs_at(s, "; exit 0"@, i) by {
        if occurs_at(s, "; exit 0"@, i) {
            let part = s.subrange(i, i + 8);
            assert(part[3] == s[i + 3]);
            assert(s[i + 3] == 'x');
        }
    }
}

// ---------------------------------------------------------------------------
// Laws
// ---------------------------------------------------------------------------

/// A hook holds what its parts hold.
proof fn parts_of(name: Seq<char>, fetch: bool, okf: bool, p: Seq<char>)
    requires
        p.len() > 0,
        forall|i: int| 0 <= i < p.len() ==> p[i] != '\n',
    ensures
        name == "pre-commit"@ ==> contains(hook_of(name, fetch, okf), p) == (contains(
            HOOK_HEADER@,
            p,
        ) || contains(GATE@, p)),
        name != "pre-commit"@ ==> contains(hook_of(name, fetch, okf), p) == (contains(
            HOOK_HEADER@,
            p,
        ) || contains(
            if fetch {
                FETCH_REFRESH@
            } else {
                REFRESH@
            },
            p,
        ) || (okf && contains(render_step(), p))),
{
    header_facts();
    refresh_facts();
    fetch_facts();
    let fresh = if fetch {
        FETCH_REFRESH@
    } else {
        REFRESH@
    };
    stands_in_one(HOOK_HEADER@, GATE@, p);
    stands_in_one(HOOK_HEADER@, fresh, p);
    stands_in_one(HOOK_HEADER@, fresh + render_step(), p);
    stands_in_one(fresh, render_step(), p);
}

/// The freshness hooks: whatever its name, each is the same text. The bundle's
/// step is appended to it, and stands there exactly with `okf`; the network is
/// asked exactly with `fetch`. Each syncs in the end, and none leaves early, so
/// that an appended step is reached.
pub proof fn the_freshness_hooks_are_alike(
    name: Seq<char>,
    other: Seq<char>,
    fetch: bool,
    okf: bool,
)
    requires
        name != "pre-commit"@,
        other != "pre-commit"@,
    ensures
        hook_of(name, fetch, true) == hook_of(name, fetch, false) + render_step(),
        hook_of(name, fetch, okf) == hook_of(other, fetch, okf),
        contains(hook_of(name, fetch, okf), "gh release download"@) <==> fetch,
        contains(hook_of(name, fetch, okf), "\troteiro render okf >"@) <==> okf,
        contains(hook_of(name, fetch, okf), "roteiro sync --committed"@),
        !contains(hook_of(name, fetch, okf), "; exit 0"@),
{
    header_facts();
    refresh_facts();
    fetch_facts();
    render_facts();
    assert(hook_of(name, fetch, true) =~= hook_of(name, fetch, false) + render_step());
    reveal_strlit("gh release download");
    reveal_strlit("\troteiro render okf >");
    reveal_strlit("roteiro sync --committed");
    reveal_strlit("; exit 0");
    parts_of(name, fetch, okf, "gh release download"@);
    parts_of(name, fetch, okf, "\troteiro render okf >"@);
    parts_of(name, fetch, okf, "roteiro sync --committed"@);
    parts_of(name, fetch, okf, "; exit 0"@);
}

/// The commit hook: neither option alters it. It runs the check, where the tool
/// is there, fails the commit and says how to get past it; it neither syncs nor
/// renders.
pub proof fn the_commit_hook_checks(fetch: bool, okf: bool)
    ensures
        hook_of("pre-commit"@, fetch, okf) == hook_of("pre-commit"@, false, false),
        contains(hook_of("pre-commit"@, fetch, okf), "command -v roteiro"@),
        contains(hook_of("pre-commit"@, fetch, okf), "roteiro check"@),
        contains(hook_of("pre-commit"@, fetch, okf), "exit 1"@),
        contains(hook_of("pre-commit"@, fetch, okf), "--no-verify"@),
        !contains(hook_of("pre-commit"@, fetch, okf), "roteiro sync"@),
        !contains(hook_of("pre-commit"@, fetch, okf), "render okf"@),
{
    header_facts();
    gate_facts();
    let name = "pre-commit"@;
    reveal_strlit("command -v roteiro");
    reveal_strlit("roteiro check");
    reveal_strlit("exit 1");
    reveal_strlit("--no-verify");
    reveal_strlit("roteiro sync");
    reveal_strlit("render okf");
    parts_of(name, fetch, okf, "command -v roteiro"@);
    parts_of(name, fetch, okf, "roteiro check"@);
    parts_of(name, fetch, okf, "exit 1"@);
    parts_of(name, fetch, okf, "--no-verify"@);
    parts_of(name, fetch, okf, "roteiro sync"@);
    parts_of(name, fetch, okf, "render okf"@);
}

/// Every hook asks first whether the tool is there, so that it is safe where it
/// is not.
pub proof fn every_hook_guards_itself(name: Seq<char>, fetch: bool, okf: bool)
    ensures
        contains(hook_of(name, fetch, okf), "command -v roteiro >/dev/null 2>&1"@),
{
    gate_facts();
    refresh_facts();
    fetch_facts();
    reveal_strlit("command -v roteiro >/dev/null 2>&1");
    parts_of(name, fetch, okf, "command -v roteiro >/dev/null 2>&1"@);
}

/// Every hook that is installed is recognised as managed, so that it can be
/// renewed.
pub proof fn every_hook_is_managed(name: Seq<char>, fetch: bool, okf: bool)
    ensures
        contains(hook_of(name, fetch, okf), HOOK_MARKER@),
{
    reveal_strlit("roteiro-managed");
    reveal_strlit(
        "#!/bin/sh\n\
# roteiro-managed: Roteiro knowledge-graph automation.\n\
# Delete this file to disable. Re-run `roteiro init` to reinstall.\n",
    );
    let s = hook_of(name, fetch, okf);
    assert(s.subrange(12, 27) =~= HOOK_MARKER@);
    assert(occurs_at(s, HOOK_MARKER@, 12));
}

} // verus!
