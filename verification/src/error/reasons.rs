//! The canonical kebab-case reasons that classify every reported error.
#![allow(dead_code)]
use vstd::prelude::*;

verus! {

pub const PACKAGE_NOT_FOUND: &'static str = "package-not-found";
pub const PLUGIN_NOT_FOUND: &'static str = "plugin-not-found";
pub const ALREADY_EXISTS: &'static str = "already-exists";
pub const VALIDATION_ERROR: &'static str = "validation-error";
pub const CIRCULAR_DEPENDENCY: &'static str = "circular-dependency";
pub const DEPENDENCY_NOT_FOUND: &'static str = "dependency-not-found";
pub const DEPENDENT_EXISTS: &'static str = "dependent-exists";
pub const SCRIPT_FAILED: &'static str = "script-failed";
pub const SCRIPT_NOT_FOUND: &'static str = "script-not-found";
pub const SCRIPT_UNMODIFIED: &'static str = "script-unmodified";
pub const GIT_NOT_FOUND: &'static str = "git-not-found";
pub const GIT_CLONE_FAILED: &'static str = "git-clone-failed";
pub const NOT_A_VALID_HOMEOS_REPO: &'static str = "not-a-valid-homeos-repo";
pub const NOT_A_VALID_HOMEOS_PLUGIN: &'static str = "not-a-valid-homeos-plugin";
pub const NOT_INITIALIZED: &'static str = "not-initialized";
pub const DATA_DIR_NOT_EMPTY: &'static str = "data-dir-not-empty";
pub const DATA_DIR_NOT_FOUND: &'static str = "data-dir-not-found";
pub const DIRECTORY_NOT_FOUND: &'static str = "directory-not-found";
pub const NOT_FOUND_ON_GITHUB: &'static str = "not-found-on-github";
pub const NETWORK_ERROR: &'static str = "network-error";
pub const PACKAGE_INSTALLED: &'static str = "package-installed";
pub const INTERNAL_ERROR: &'static str = "internal-error";

} // verus!
