use homeos::context::Context;
use homeos::error::Failure;
use homeos::git::{clone, clone_args, init, init_args, spawn_error, GitRun};
use homeos::init::{gitignore_content, init_precheck, initialized_message, invalid_repo_error};

fn reason_and_message(f: Failure) -> (String, String) {
    match f {
        Failure::Homeos(e) => (e.reason.to_string(), e.message),
        Failure::Other(m) => ("".to_string(), m),
    }
}

#[test]
fn test_git_args() {
    assert_eq!(
        clone_args("https://x/r", "/t"),
        vec!["-c", "core.autocrlf=false", "-c", "core.eol=lf", "clone", "https://x/r", "/t"]
    );
    assert_eq!(
        init_args("/t"),
        vec!["-c", "core.autocrlf=false", "-c", "core.eol=lf", "init", "--initial-branch=main", "/t"]
    );
}

#[test]
fn test_clone_reports_trimmed_stderr() {
    assert!(clone(GitRun::Ran { success: true, stderr: String::new() }).is_ok());
    let e = clone(GitRun::Ran { success: false, stderr: "  fatal: repository not found\n".to_string() }).unwrap_err();
    assert_eq!(
        reason_and_message(e),
        ("git-clone-failed".to_string(), "git clone failed: fatal: repository not found".to_string())
    );
    let e = init(GitRun::Ran { success: false, stderr: "boom\n".to_string() }).unwrap_err();
    assert_eq!(reason_and_message(e), ("internal-error".to_string(), "git init failed: boom".to_string()));
}

#[test]
fn test_spawn_error_not_found() {
    assert_eq!(
        reason_and_message(spawn_error(true, "No such file".to_string())),
        ("git-not-found".to_string(), "git not found on PATH. homeos requires Git 2.28+.".to_string())
    );
    assert_eq!(reason_and_message(spawn_error(false, "denied".to_string())), ("".to_string(), "denied".to_string()));
    let e = clone(GitRun::NotStarted { not_found: true, message: "x".to_string() }).unwrap_err();
    assert_eq!(reason_and_message(e).0, "git-not-found");
}

#[test]
fn test_init_precheck() {
    let ctx = Context::new(Some("/tmp/h".to_string()), None, None);
    assert!(init_precheck(&ctx, false, false).is_ok());
    assert_eq!(
        reason_and_message(init_precheck(&ctx, true, true).unwrap_err()),
        ("already-exists".to_string(), "Already initialized at /tmp/h".to_string())
    );
    assert_eq!(
        reason_and_message(init_precheck(&ctx, false, true).unwrap_err()),
        ("data-dir-not-empty".to_string(), "Data directory at /tmp/h is not empty".to_string())
    );
}

#[test]
fn test_init_texts() {
    let ctx = Context::new(Some("/tmp/h".to_string()), None, None);
    assert_eq!(gitignore_content(), "state.yml\n.last-update-check\n");
    assert_eq!(initialized_message(&ctx, None), "Initialized homeos at /tmp/h");
    assert_eq!(initialized_message(&ctx, Some("u")), "Initialized homeos at /tmp/h (cloned from u)");
    assert_eq!(reason_and_message(invalid_repo_error()).0, "not-a-valid-homeos-repo");
}
