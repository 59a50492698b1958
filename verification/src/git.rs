//! The git commands homeos runs, and how their failures are reported.
use vstd::prelude::*;
use crate::error::{Failure, HomeosError, reasons};
use crate::plan::{trim, trimmed};
use crate::registry::message2;
use crate::text::{owned, strs};

verus! {

/// The options every git command runs with: no line-ending conversion.
pub open spec fn git_options() -> Seq<Seq<char>> {
    seq!["-c"@, "core.autocrlf=false"@, "-c"@, "core.eol=lf"@]
}

fn options() -> (r: Vec<String>)
    ensures
        strs(r@) == git_options(),
{
    let mut v: Vec<String> = Vec::new();
    v.push(owned("-c"));
    v.push(owned("core.autocrlf=false"));
    v.push(owned("-c"));
    v.push(owned("core.eol=lf"));
    assert(strs(v@) =~= git_options());
    v
}

/// The arguments of `git clone` from `url` into `target`.
pub fn clone_args(url: &str, target: &str) -> (r: Vec<String>)
    ensures
        strs(r@) == git_options() + seq!["clone"@, url@, target@],
{
    let mut v = options();
    v.push(owned("clone"));
    v.push(owned(url));
    v.push(owned(target));
    assert(strs(v@) =~= git_options() + seq!["clone"@, url@, target@]);
    v
}

/// The arguments of `git init` of `target` on branch `main`.
pub fn init_args(target: &str) -> (r: Vec<String>)
    ensures
        strs(r@) == git_options() + seq!["init"@, "--initial-branch=main"@, target@],
{
    let mut v = options();
    v.push(owned("init"));
    v.push(owned("--initial-branch=main"));
    v.push(owned(target));
    assert(strs(v@) =~= git_options() + seq!["init"@, "--initial-branch=main"@, target@]);
    v
}

/// What running a git command came to: it ran (and succeeded or not, with
/// its error output), or it could not be started (because the program does
/// not exist, or for another reason described by the message).
pub enum GitRun {
    Ran { success: bool, stderr: String },
    NotStarted { not_found: bool, message: String },
}

/// The error when git could not be started: `git-not-found` when the program
/// does not exist, else the system's own error message.
pub fn spawn_error(not_found: bool, message: String) -> (r: Failure)
    ensures
        not_found ==> (r matches Failure::Homeos(e) && e.reason == reasons::GIT_NOT_FOUND
            && e.message@ == "git not found on PATH. homeos requires Git 2.28+."@),
        !not_found ==> r == Failure::Other(message),
{
    if not_found {
        Failure::Homeos(HomeosError::new(reasons::GIT_NOT_FOUND, owned("git not found on PATH. homeos requires Git 2.28+.")))
    } else {
        Failure::Other(message)
    }
}

/// The git command ran and succeeded.
pub open spec fn git_outcome_ok(run: GitRun) -> bool {
    run matches GitRun::Ran { success, .. } && success
}

/// `r` is the error of a git that could not be started.
pub open spec fn not_started_error(r: Result<(), Failure>, not_found: bool, message: String) -> bool {
    &&& not_found ==> (r matches Err(Failure::Homeos(e)) && e.reason == reasons::GIT_NOT_FOUND
        && e.message@ == "git not found on PATH. homeos requires Git 2.28+."@)
    &&& !not_found ==> r == Err::<(), Failure>(Failure::Other(message))
}

/// The result of `git clone` (run with `clone_args`): success, `git-clone-failed`
/// with git's trimmed error output, or the error of a git that could not be started.
pub fn clone(run: GitRun) -> (r: Result<(), Failure>)
    ensures
        r is Ok <==> git_outcome_ok(run),
        run matches GitRun::Ran { success, stderr } ==> (!success ==> (r matches Err(Failure::Homeos(e))
            && e.reason == reasons::GIT_CLONE_FAILED && e.message@ == "git clone failed: "@ + trimmed(stderr@))),
        run matches GitRun::NotStarted { not_found, message } ==> not_started_error(r, not_found, message),
{
    match run {
        GitRun::Ran { success, stderr } => {
            if success {
                Ok(())
            } else {
                Err(Failure::Homeos(HomeosError::new(reasons::GIT_CLONE_FAILED, message2("git clone failed: ", trim(stderr.as_str()).as_str()))))
            }
        },
        GitRun::NotStarted { not_found, message } => Err(spawn_error(not_found, message)),
    }
}

/// The result of `git init` (run with `init_args`): success, an internal error
/// with git's trimmed error output, or the error of a git that could not be started.
pub fn init(run: GitRun) -> (r: Result<(), Failure>)
    ensures
        r is Ok <==> git_outcome_ok(run),
        run matches GitRun::Ran { success, stderr } ==> (!success ==> (r matches Err(Failure::Homeos(e))
            && e.reason == reasons::INTERNAL_ERROR && e.message@ == "git init failed: "@ + trimmed(stderr@))),
        run matches GitRun::NotStarted { not_found, message } ==> not_started_error(r, not_found, message),
{
    match run {
        GitRun::Ran { success, stderr } => {
            if success {
                Ok(())
            } else {
                Err(Failure::Homeos(HomeosError::new(reasons::INTERNAL_ERROR, message2("git init failed: ", trim(stderr.as_str()).as_str()))))
            }
        },
        GitRun::NotStarted { not_found, message } => Err(spawn_error(not_found, message)),
    }
}

} // verus!
