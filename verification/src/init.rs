//! Setting up the data directory.
use vstd::prelude::*;
use crate::context::Context;
use crate::error::{Failure, HomeosError, reasons};
use crate::registry::{message2, message3};
use crate::text::{owned, push_str};

verus! {

/// Why `init` refuses to run, if it does: the configuration file already
/// exists, or the data directory is not empty.
pub open spec fn init_refusal(dir: Seq<char>, config_exists: bool, dir_not_empty: bool) -> Option<(&'static str, Seq<char>)> {
    if config_exists {
        Some((reasons::ALREADY_EXISTS, "Already initialized at "@ + dir))
    } else if dir_not_empty {
        Some((reasons::DATA_DIR_NOT_EMPTY, "Data directory at "@ + dir + " is not empty"@))
    } else {
        None
    }
}

/// Checks that the data directory can be initialized.
pub fn init_precheck(ctx: &Context, config_exists: bool, dir_not_empty: bool) -> (r: Result<(), Failure>)
    ensures
        r is Ok <==> init_refusal(ctx.dir(), config_exists, dir_not_empty) is None,
        r matches Err(Failure::Homeos(e)) ==> init_refusal(ctx.dir(), config_exists, dir_not_empty)
            == Some((e.reason, e.message@)),
        r matches Err(e) ==> e is Homeos,
{
    if config_exists {
        return Err(Failure::Homeos(HomeosError::new(reasons::ALREADY_EXISTS, message2("Already initialized at ", ctx.data_dir()))));
    }
    if dir_not_empty {
        return Err(Failure::Homeos(HomeosError::new(reasons::DATA_DIR_NOT_EMPTY,
            message3("Data directory at ", ctx.data_dir(), " is not empty"))));
    }
    Ok(())
}

/// The error when a cloned repository has no configuration file.
pub fn invalid_repo_error() -> (r: Failure)
    ensures
        r matches Failure::Homeos(e) && e.reason == reasons::NOT_A_VALID_HOMEOS_REPO
            && e.message@ == "Not a valid homeos repository. Cloned directory removed."@,
{
    Failure::Homeos(HomeosError::new(reasons::NOT_A_VALID_HOMEOS_REPO, owned("Not a valid homeos repository. Cloned directory removed.")))
}

/// The `.gitignore` a new data directory starts with: machine-local files stay out of git.
pub fn gitignore_content() -> (r: &'static str)
    ensures
        r@ == "state.yml\n.last-update-check\n"@,
{
    "state.yml\n.last-update-check\n"
}

/// What `init` reports: where, and the repository it was cloned from, if any.
pub fn initialized_message(ctx: &Context, url: Option<&str>) -> (r: String)
    ensures
        url is None ==> r@ == "Initialized homeos at "@ + ctx.dir(),
        url matches Some(u) ==> r@ == "Initialized homeos at "@ + ctx.dir() + " (cloned from "@ + u@ + ")"@,
{
    let mut r = message2("Initialized homeos at ", ctx.data_dir());
    match url {
        Some(u) => {
            push_str(&mut r, " (cloned from ");
            push_str(&mut r, u);
            push_str(&mut r, ")");
        },
        None => {},
    }
    r
}

/// The error when there is no configuration file: homeos is not initialized.
pub fn config_missing_error(config_path: &str) -> (r: Failure)
    ensures
        r matches Failure::Homeos(e) && e.reason == reasons::NOT_INITIALIZED
            && e.message@ == "homeos.yml not found at "@ + config_path@ + ". Run 'homeos init' first."@,
{
    Failure::Homeos(HomeosError::new(reasons::NOT_INITIALIZED, message3("homeos.yml not found at ", config_path, ". Run 'homeos init' first.")))
}

} // verus!
