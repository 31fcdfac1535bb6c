//! How a change is turned into diff text: what git is asked, and what its answer
//! means. That git could not look is never the same as that there is nothing to
//! see.
use vstd::prelude::*;

use crate::text::{chars_of, opt_view, string_of, views};

verus! {

/// Lines of context on either side of a change.
pub const CONTEXT_LINES: &'static str = "-U3";

/// Refuses a configured external differ, whose output would replace the diff.
pub const NO_EXTERNAL: &'static str = "--no-ext-diff";

/// Refuses colours, which would corrupt the text.
pub const NO_COLOUR: &'static str = "--no-color";

/// What a run of git left behind.
pub struct GitRun {
    /// The exit code, where there was one.
    pub code: Option<i32>,
    pub stdout: String,
    /// Nothing was written to stderr.
    pub quiet: bool,
}

/// `s` without the line endings at its end. Other white space stays: it may be
/// what the change is about.
pub open spec fn without_line_ends(s: Seq<char>) -> Seq<char>
    decreases s.len(),
{
    if s.len() > 0 && (s.last() == '\r' || s.last() == '\n') {
        without_line_ends(s.drop_last())
    } else {
        s
    }
}

/// `s` without the line endings at its end.
pub fn trim_line_ends(s: &str) -> (r: String)
    ensures
        r@ == without_line_ends(s@),
{
    let v = chars_of(s);
    let mut n: usize = v.len();
    assert(v@.take(n as int) =~= v@);
    while n > 0 && (v[n - 1] == '\r' || v[n - 1] == '\n')
        invariant
            n <= v@.len(),
            v@ == s@,
            without_line_ends(s@) == without_line_ends(v@.take(n as int)),
        decreases n,
    {
        assert(v@.take(n as int).drop_last() =~= v@.take(n - 1));
        n = n - 1;
    }
    assert(v@.subrange(0, n as int) =~= v@.take(n as int));
    string_of(&v, 0, n)
}

/// What a successful run of git wrote, without the line endings at its end;
/// `None` where git did not start or failed.
pub open spec fn git_said(run: Option<GitRun>) -> Option<Seq<char>> {
    match run {
        Some(r) => if r.code == Some(0i32) {
            Some(without_line_ends(r.stdout@))
        } else {
            None
        },
        None => None,
    }
}

/// What git wrote, or `None` where it did not start or failed.
pub fn git(run: &Option<GitRun>) -> (r: Option<String>)
    ensures
        opt_view(r) == git_said(*run),
{
    match run {
        Some(g) => match g.code {
            Some(0) => Some(trim_line_ends(g.stdout.as_str())),
            _ => None,
        },
        None => None,
    }
}

/// What git is asked for the diff of `path` over `range`.
pub open spec fn unified_asks(range: Seq<Seq<char>>, path: Seq<char>) -> Seq<Seq<char>> {
    seq!["diff"@, CONTEXT_LINES@, NO_EXTERNAL@, NO_COLOUR@] + range + seq!["--"@, path]
}

/// What git is asked for the diff of `path` over `range`.
pub fn unified_args(range: &Vec<String>, path: &str) -> (r: Vec<String>)
    ensures
        views(r@) == unified_asks(views(range@), path@),
{
    let mut r: Vec<String> = Vec::new();
    r.push("diff".to_owned());
    r.push(CONTEXT_LINES.to_owned());
    r.push(NO_EXTERNAL.to_owned());
    r.push(NO_COLOUR.to_owned());
    let ghost head = seq!["diff"@, CONTEXT_LINES@, NO_EXTERNAL@, NO_COLOUR@];
    assert(views(r@) =~= head + views(range@).take(0));
    let mut i: usize = 0;
    while i < range.len()
        invariant
            i <= range@.len(),
            views(r@) == head + views(range@).take(i as int),
        decreases range@.len() - i,
    {
        let ghost was = r@;
        r.push(range[i].clone());
        proof {
            let v = views(range@);
            assert(views(r@) =~= views(was).push(v[i as int]));
            assert(head + v.take(i + 1) =~= (head + v.take(i as int)).push(v[i as int]));
        }
        i = i + 1;
    }
    assert(views(range@).take(range@.len() as int) =~= views(range@));
    let ghost was = r@;
    r.push("--".to_owned());
    r.push(path.to_owned());
    assert(views(r@) =~= views(was) + seq!["--"@, path@]);
    r
}

/// The unified diff that a run with [`unified_args`] gives: `None` where git
/// failed, empty where it found nothing to show.
pub fn unified(run: &Option<GitRun>) -> (r: Option<String>)
    ensures
        opt_view(r) == git_said(*run),
{
    git(run)
}

/// What git is asked for the text of a file it does not track: a comparison with
/// nothing.
pub open spec fn untracked_asks(path: Seq<char>) -> Seq<Seq<char>> {
    seq![
        "diff"@,
        CONTEXT_LINES@,
        NO_EXTERNAL@,
        NO_COLOUR@,
        "--no-index"@,
        "--"@,
        "/dev/null"@,
        path,
    ]
}

/// What git is asked for the text of a file it does not track.
pub fn untracked_args(path: &str) -> (r: Vec<String>)
    ensures
        views(r@) == untracked_asks(path@),
{
    let mut r: Vec<String> = Vec::new();
    r.push("diff".to_owned());
    r.push(CONTEXT_LINES.to_owned());
    r.push(NO_EXTERNAL.to_owned());
    r.push(NO_COLOUR.to_owned());
    r.push("--no-index".to_owned());
    r.push("--".to_owned());
    r.push("/dev/null".to_owned());
    r.push(path.to_owned());
    assert(views(r@) =~= untracked_asks(path@));
    r
}

/// What a comparison with nothing means. Git answers 0 for an empty file, and 1
/// both for a difference and for a file it could not read: only the second
/// complains.
pub open spec fn untracked_said(run: Option<GitRun>) -> Option<Seq<char>> {
    match run {
        Some(r) => if r.code == Some(0i32) || (r.code == Some(1i32) && r.quiet) {
            Some(without_line_ends(r.stdout@))
        } else {
            None
        },
        None => None,
    }
}

/// The unified diff that a run with [`untracked_args`] gives.
pub fn unified_untracked(run: &Option<GitRun>) -> (r: Option<String>)
    ensures
        opt_view(r) == untracked_said(*run),
{
    match run {
        Some(g) => {
            let ok = match g.code {
                Some(0) => true,
                Some(1) => g.quiet,
                _ => false,
            };
            if ok {
                Some(trim_line_ends(g.stdout.as_str()))
            } else {
                None
            }
        },
        None => None,
    }
}

/// Only line endings are taken off: what stands before them comes back whole,
/// trailing spaces included.
pub proof fn only_line_ends_are_lost(s: Seq<char>)
    ensures
        without_line_ends(s).len() <= s.len(),
        without_line_ends(s) == s.take(without_line_ends(s).len() as int),
        forall|i: int|
            without_line_ends(s).len() <= i < s.len() ==> #[trigger] s[i] == '\r' || s[i] == '\n',
        without_line_ends(s).len() > 0 ==> without_line_ends(s).last() != '\r' && without_line_ends(
            s,
        ).last() != '\n',
    decreases s.len(),
{
    if s.len() > 0 && (s.last() == '\r' || s.last() == '\n') {
        let t = s.drop_last();
        only_line_ends_are_lost(t);
        let n = without_line_ends(s).len() as int;
        assert(t.take(n) =~= s.take(n));
        assert forall|i: int| n <= i < s.len() implies #[trigger] s[i] == '\r' || s[i] == '\n' by {
            if i < t.len() {
                assert(t[i] == s[i]);
            }
        }
    } else {
        assert(s.take(s.len() as int) =~= s);
    }
}

/// What git wrote counts exactly if it succeeded: a run that did not start, that
/// failed or that was killed says nothing, and one that succeeded says what it
/// wrote, an empty text too.
pub proof fn only_a_success_says_anything(r: GitRun)
    ensures
        git_said(None) is None,
        git_said(Some(r)) is Some <==> r.code == Some(0i32),
        git_said(Some(r)) is Some ==> git_said(Some(r))->0 == without_line_ends(r.stdout@),
        untracked_said(None) is None,
        r.code == Some(0i32) ==> untracked_said(Some(r)) is Some,
        r.code == Some(1i32) ==> (untracked_said(Some(r)) is Some <==> r.quiet),
        r.code != Some(0i32) && r.code != Some(1i32) ==> untracked_said(Some(r)) is None,
        untracked_said(Some(r)) is Some ==> untracked_said(Some(r))->0 == without_line_ends(r.stdout@),
{
}

/// What git is asked names the range and then, behind a `--`, the path, and
/// refuses whatever would replace or colour the text.
pub proof fn git_is_asked_for_plain_text(range: Seq<Seq<char>>, path: Seq<char>)
    ensures
        unified_asks(range, path)[0] == "diff"@,
        unified_asks(range, path).len() == range.len() + 6,
        unified_asks(range, path).contains("-U3"@),
        unified_asks(range, path).contains("--no-ext-diff"@),
        unified_asks(range, path).contains("--no-color"@),
        unified_asks(range, path).subrange(4, 4 + range.len() as int) == range,
        unified_asks(range, path)[4 + range.len() as int] == "--"@,
        unified_asks(range, path).last() == path,
        untracked_asks(path)[0] == "diff"@,
        untracked_asks(path).contains("-U3"@),
        untracked_asks(path).contains("--no-ext-diff"@),
        untracked_asks(path).contains("--no-color"@),
        untracked_asks(path).contains("--no-index"@),
        untracked_asks(path).last() == path,
{
    let a = unified_asks(range, path);
    let b = untracked_asks(path);
    assert(a[1] == CONTEXT_LINES@ && a[2] == NO_EXTERNAL@ && a[3] == NO_COLOUR@);
    assert(b[1] == CONTEXT_LINES@ && b[2] == NO_EXTERNAL@ && b[3] == NO_COLOUR@ && b[4]
        == "--no-index"@);
    assert(a.subrange(4, 4 + range.len() as int) =~= range);
}

} // verus!
