use roteiro::diff::{
    git, trim_line_ends, unified, unified_args, unified_untracked, untracked_args, GitRun,
};

fn run(code: Option<i32>, stdout: &str, quiet: bool) -> Option<GitRun> {
    Some(GitRun {
        code,
        stdout: stdout.to_owned(),
        quiet,
    })
}

#[test]
fn git_answers_only_when_it_succeeds() {
    assert_eq!(
        git(&run(Some(0), "main\n", true)),
        Some("main".to_owned())
    );
    assert_eq!(git(&run(Some(0), "main\r\n\n", false)), Some("main".to_owned()));
    assert_eq!(git(&run(Some(128), "fatal", false)), None);
    assert_eq!(git(&run(None, "", true)), None, "killed by a signal");
    assert_eq!(git(&None), None, "never started");
}

#[test]
fn nothing_to_show_is_not_a_failure() {
    assert_eq!(unified(&run(Some(0), "", true)), Some(String::new()));
    assert_eq!(unified(&run(Some(1), "", true)), None);
}

#[test]
fn git_is_asked_for_its_own_output() {
    let range = vec!["main".to_owned(), "HEAD".to_owned()];
    assert_eq!(
        unified_args(&range, "src/a.rs"),
        [
            "diff",
            "-U3",
            "--no-ext-diff",
            "--no-color",
            "main",
            "HEAD",
            "--",
            "src/a.rs"
        ]
    );
    assert_eq!(
        unified_args(&Vec::new(), "a"),
        ["diff", "-U3", "--no-ext-diff", "--no-color", "--", "a"]
    );
    assert_eq!(
        untracked_args("new.rs"),
        [
            "diff",
            "-U3",
            "--no-ext-diff",
            "--no-color",
            "--no-index",
            "--",
            "/dev/null",
            "new.rs"
        ]
    );
}

#[test]
fn a_quiet_one_is_a_difference_and_a_loud_one_a_failure() {
    let text = "--- /dev/null\n+++ b/new.rs\n@@ -0,0 +1 @@\n+fn c() {}\n";
    assert_eq!(
        unified_untracked(&run(Some(1), text, true)),
        Some(text.trim_end_matches('\n').to_owned())
    );
    assert_eq!(unified_untracked(&run(Some(1), "", false)), None);
    // An empty new file is identical to nothing.
    assert_eq!(unified_untracked(&run(Some(0), "", true)), Some(String::new()));
    assert_eq!(unified_untracked(&run(Some(0), "", false)), Some(String::new()));
    assert_eq!(unified_untracked(&run(Some(2), text, true)), None);
    assert_eq!(unified_untracked(&run(None, text, true)), None);
    assert_eq!(unified_untracked(&None), None);
}

#[test]
fn trailing_spaces_survive() {
    for s in ["", "\n", "+fn a() {}   \n", "a\r\n\r\n", "a \t", "\n\na", "a\u{a0}\n"] {
        assert_eq!(trim_line_ends(s), s.trim_end_matches(['\r', '\n']), "{s:?}");
    }
    assert_eq!(trim_line_ends("+fn a() {}   \n"), "+fn a() {}   ");
}
