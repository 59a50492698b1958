//! Which shell runs action scripts and subshells, and what scripts are called.
use vstd::prelude::*;
use crate::config::PackageConfig;
use crate::context::main_separator;
use crate::plan::{Action, action_name};
use crate::strmap::lookup;
use crate::text::{owned, push_str};

verus! {

/// The notice shown before a plan when scripts fall back to Windows PowerShell 5.1.
pub const WINDOWS_POWERSHELL_FALLBACK_NOTICE: &'static str =
    "(running under Windows PowerShell 5.1; PowerShell 7 recommended)";

/// The script file extension on a Windows host (`ps1`) or any other host (`sh`).
pub open spec fn extension_for(is_windows: bool) -> Seq<char> {
    if is_windows {
        "ps1"@
    } else {
        "sh"@
    }
}

/// The Windows shell binary: `pwsh` when it is on `PATH`, else `powershell`.
pub open spec fn windows_shell(pwsh_available: bool) -> Seq<char> {
    if pwsh_available {
        "pwsh"@
    } else {
        "powershell"@
    }
}

/// Whether this program runs on Windows (the only platform whose separator is `\`).
pub fn host_is_windows() -> (b: bool) {
    main_separator() == '\\'
}

/// The script extension for the given platform.
pub fn script_extension_for(is_windows: bool) -> (r: &'static str)
    ensures
        r@ == extension_for(is_windows),
{
    if is_windows {
        "ps1"
    } else {
        "sh"
    }
}

/// The script extension of this host.
pub fn script_extension() -> (r: &'static str)
    ensures
        r@ == extension_for(false) || r@ == extension_for(true),
{
    script_extension_for(host_is_windows())
}

/// Every script extension of every supported platform.
pub fn all_script_extensions() -> (r: Vec<&'static str>)
    ensures
        r@.len() == 2,
        r@[0]@ == extension_for(false),
        r@[1]@ == extension_for(true),
{
    let mut v: Vec<&'static str> = Vec::new();
    v.push("sh");
    v.push("ps1");
    v
}

/// The Windows shell binary, given whether `pwsh` is on `PATH`.
pub fn windows_shell_for(pwsh_available: bool) -> (r: &'static str)
    ensures
        r@ == windows_shell(pwsh_available),
{
    if pwsh_available {
        "pwsh"
    } else {
        "powershell"
    }
}

/// The interactive shell: `shell_env` (the `SHELL` variable) when set,
/// else `/bin/sh` on Unix and the Windows shell on Windows.
pub fn resolve_shell_with(shell_env: Option<String>, is_windows: bool, pwsh_available: bool) -> (r: String)
    ensures
        shell_env matches Some(s) ==> r@ == s@,
        shell_env is None && is_windows ==> r@ == windows_shell(pwsh_available),
        shell_env is None && !is_windows ==> r@ == "/bin/sh"@,
{
    match shell_env {
        Some(s) => s,
        None => {
            if is_windows {
                owned(windows_shell_for(pwsh_available))
            } else {
                owned("/bin/sh")
            }
        },
    }
}

/// The interactive shell on this host.
pub fn resolve_shell(shell_env: Option<String>, pwsh_available: bool) -> (r: String)
    ensures
        shell_env matches Some(s) ==> r@ == s@,
        shell_env is None ==> (r@ == "/bin/sh"@ || r@ == windows_shell(pwsh_available)),
{
    resolve_shell_with(shell_env, host_is_windows(), pwsh_available)
}

/// The shell binary that runs action scripts: `sh` on Unix, the Windows shell on Windows.
pub fn shell_command_for(is_windows: bool, pwsh_available: bool) -> (r: &'static str)
    ensures
        is_windows ==> r@ == windows_shell(pwsh_available),
        !is_windows ==> r@ == "sh"@,
{
    if is_windows {
        windows_shell_for(pwsh_available)
    } else {
        "sh"
    }
}

/// The shell binary that runs action scripts on this host.
pub fn shell_command(pwsh_available: bool) -> (r: &'static str)
    ensures
        r@ == "sh"@ || r@ == windows_shell(pwsh_available),
{
    shell_command_for(host_is_windows(), pwsh_available)
}

/// The notice for the Windows PowerShell 5.1 fallback: present exactly on
/// Windows without `pwsh`.
pub fn fallback_notice_for(is_windows: bool, pwsh_available: bool) -> (r: Option<&'static str>)
    ensures
        r is Some <==> (is_windows && !pwsh_available),
        r matches Some(n) ==> n@ == WINDOWS_POWERSHELL_FALLBACK_NOTICE@,
{
    if is_windows && !pwsh_available {
        Some(WINDOWS_POWERSHELL_FALLBACK_NOTICE)
    } else {
        None
    }
}

/// Whether this host runs scripts under the Windows PowerShell 5.1 fallback.
pub fn is_windows_powershell_fallback(pwsh_available: bool) -> (b: bool)
    ensures
        pwsh_available ==> !b,
{
    host_is_windows() && !pwsh_available
}

/// The fallback notice on this host; never present where `pwsh` is available.
pub fn windows_powershell_fallback_notice(pwsh_available: bool) -> (r: Option<&'static str>)
    ensures
        pwsh_available ==> r is None,
        r matches Some(n) ==> n@ == WINDOWS_POWERSHELL_FALLBACK_NOTICE@,
{
    fallback_notice_for(host_is_windows(), pwsh_available)
}

/// The base name of the script an action runs: the package's alias for the
/// action if it has one, else the action's own name.
pub open spec fn script_base(pkg: PackageConfig, action: Action) -> Seq<char> {
    match lookup(pkg.script_aliases@, action_name(action)) {
        Some(a) => a@,
        None => action_name(action),
    }
}

/// The file name of the script an action runs on the given platform.
pub open spec fn script_name(pkg: PackageConfig, action: Action, is_windows: bool) -> Seq<char> {
    script_base(pkg, action) + "."@ + extension_for(is_windows)
}

/// The script file name for `action`, honouring the package's script aliases.
pub fn resolve_script_name_for(pkg: &PackageConfig, action: Action, is_windows: bool) -> (r: String)
    ensures
        r@ == script_name(*pkg, action, is_windows),
{
    let name = action.as_str();
    let mut r = match pkg.script_aliases.get(name) {
        Some(a) => a.clone(),
        None => owned(name),
    };
    push_str(&mut r, ".");
    push_str(&mut r, script_extension_for(is_windows));
    r
}

/// The script file name for `action` on this host.
pub fn resolve_script_name(pkg: &PackageConfig, action: Action) -> (r: String)
    ensures
        r@ == script_name(*pkg, action, false) || r@ == script_name(*pkg, action, true),
{
    resolve_script_name_for(pkg, action, host_is_windows())
}

} // verus!
