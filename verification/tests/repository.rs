use refdocs::error::ErrorKind;
use refdocs::git::{conv_output, diagnostic_text, CommandResult, Repo};

fn exited(success: bool, stdout: &[u8], stderr: &[u8]) -> CommandResult {
    CommandResult::Exited { success, stdout: stdout.to_vec(), stderr: stderr.to_vec() }
}

#[test]
fn repository_keeps_its_path() {
    assert_eq!(Repo::new("/work/project").path(), "/work/project");
    assert_eq!(Repo::new("").path(), "");
}

#[test]
fn listing_command() {
    let c = Repo::new("/work/project").refs_command();
    assert_eq!(c.program, "git");
    assert_eq!(c.dir, "/work/project");
    assert_eq!(c.args, vec!["for-each-ref", "--format", "%(refname)"]);
    assert_eq!(c.input, None);
}

#[test]
fn checkout_command() {
    let c = Repo::new("/work/project").checkout_command("refs/tags/v1.0.0");
    assert_eq!(c.program, "git");
    assert_eq!(c.dir, "/work/project");
    assert_eq!(c.args, vec!["checkout", "refs/tags/v1.0.0"]);
    assert_eq!(c.input, None);
}

#[test]
fn references_are_read_line_by_line() {
    let repo = Repo::new(".");
    let out = exited(true, b"refs/heads/master\nrefs/tags/v1.0.0\nrefs/tags/v1.2.0\n", b"");
    assert_eq!(
        repo.refs(&out).unwrap(),
        vec!["refs/heads/master", "refs/tags/v1.0.0", "refs/tags/v1.2.0"]
    );
}

#[test]
fn last_line_needs_no_line_feed() {
    let repo = Repo::new(".");
    assert_eq!(repo.refs(&exited(true, b"a\nb", b"")).unwrap(), vec!["a", "b"]);
}

#[test]
fn empty_lines_are_no_references() {
    let repo = Repo::new(".");
    assert_eq!(repo.refs(&exited(true, b"\n\na\n\n\nb\n\n", b"")).unwrap(), vec!["a", "b"]);
    assert!(repo.refs(&exited(true, b"", b"")).unwrap().is_empty());
    assert!(repo.refs(&exited(true, b"\n", b"")).unwrap().is_empty());
}

#[test]
fn carriage_returns_belong_to_the_name() {
    let repo = Repo::new(".");
    assert_eq!(repo.refs(&exited(true, b"a\r\nb", b"")).unwrap(), vec!["a\r", "b"]);
}

#[test]
fn names_may_hold_wide_characters() {
    let repo = Repo::new(".");
    let out = exited(true, "refs/heads/f\u{00fc}r\nrefs/tags/\u{4e2d}\n".as_bytes(), b"");
    assert_eq!(repo.refs(&out).unwrap(), vec!["refs/heads/f\u{00fc}r", "refs/tags/\u{4e2d}"]);
}

#[test]
fn name_that_is_no_text_fails() {
    let repo = Repo::new(".");
    let e = repo.refs(&exited(true, b"refs/heads/ok\nrefs/heads/\xff\n", b"")).unwrap_err();
    assert_eq!(e.kind, ErrorKind::Vcs);
    assert_eq!(e.detail, "git created non-UTF8 output");
}

#[test]
fn failed_listing_carries_the_diagnostic() {
    let repo = Repo::new(".");
    let e = repo.refs(&exited(false, b"refs/heads/x\n", b"fatal: not a git repository\n")).unwrap_err();
    assert_eq!(e.kind, ErrorKind::Vcs);
    assert_eq!(e.detail, "git branch failed: fatal: not a git repository\n");
}

#[test]
fn failed_listing_with_unreadable_diagnostic() {
    let repo = Repo::new(".");
    let e = repo.refs(&exited(false, b"", b"\xc3")).unwrap_err();
    assert_eq!(e.kind, ErrorKind::Vcs);
    assert_eq!(e.detail, "git created non-UTF8 output");
}

#[test]
fn listing_that_did_not_start_fails() {
    let e = Repo::new(".").refs(&CommandResult::NotLaunched).unwrap_err();
    assert_eq!(e.kind, ErrorKind::Vcs);
    assert_eq!(e.detail, "failed to run git");
}

#[test]
fn checkout_succeeds_on_status_zero() {
    let repo = Repo::new(".");
    assert!(repo.checkout(&exited(true, b"", b"Switched to branch 'x'\n")).is_ok());
}

#[test]
fn checkout_fails_on_another_status() {
    let repo = Repo::new(".");
    let e = repo.checkout(&exited(false, b"", b"error: pathspec 'x' did not match\n")).unwrap_err();
    assert_eq!(e.kind, ErrorKind::Vcs);
    assert_eq!(e.detail, "failed to checkout reference: error: pathspec 'x' did not match\n");
}

#[test]
fn checkout_that_did_not_start_fails() {
    let e = Repo::new(".").checkout(&CommandResult::NotLaunched).unwrap_err();
    assert_eq!(e.kind, ErrorKind::Vcs);
    assert_eq!(e.detail, "failed to checkout reference");
}

#[test]
fn output_is_read_as_text() {
    assert_eq!(conv_output(b"plain").unwrap(), "plain");
    assert_eq!(conv_output("\u{00e9}\u{4e2d}".as_bytes()).unwrap(), "\u{00e9}\u{4e2d}");
    assert_eq!(conv_output(b"").unwrap(), "");
}

#[test]
fn output_that_is_no_text_fails() {
    let e = conv_output(b"ab\x80").unwrap_err();
    assert_eq!(e.kind, ErrorKind::Vcs);
    assert_eq!(e.detail, "git created non-UTF8 output");
}

#[test]
fn diagnostic_of_unreadable_bytes() {
    assert_eq!(diagnostic_text(b"warning: x"), "warning: x");
    assert_eq!(diagnostic_text(b"\xff\xfe"), "<non utf-8>");
}
