//! Shell completion: the registration snippet a shell sources to complete homeos.
use vstd::prelude::*;
use crate::error::Failure;
use crate::registry::message3;

verus! {

/// The shells homeos writes a completion registration for.
#[derive(Clone, Copy, Debug, PartialEq, Eq, Structural)]
pub enum CompletionShell {
    Bash,
    Zsh,
    Fish,
    PowerShell,
    Elvish,
}

/// The name clap_complete knows a shell by.
pub open spec fn engine_name(s: CompletionShell) -> Seq<char> {
    match s {
        CompletionShell::Bash => "bash"@,
        CompletionShell::Zsh => "zsh"@,
        CompletionShell::Fish => "fish"@,
        CompletionShell::PowerShell => "powershell"@,
        CompletionShell::Elvish => "elvish"@,
    }
}

impl CompletionShell {
    /// The name clap_complete knows this shell by.
    pub fn as_engine_name(self) -> (r: &'static str)
        ensures
            r@ == engine_name(self),
    {
        match self {
            CompletionShell::Bash => "bash",
            CompletionShell::Zsh => "zsh",
            CompletionShell::Fish => "fish",
            CompletionShell::PowerShell => "powershell",
            CompletionShell::Elvish => "elvish",
        }
    }
}

/// The shell names clap_complete's built-in completers answer to.
pub open spec fn is_builtin_shell(name: Seq<char>) -> bool {
    ||| name == "bash"@
    ||| name == "elvish"@
    ||| name == "fish"@
    ||| name == "pwsh"@
    ||| name == "powershell"@
    ||| name == "powershell_ise"@
    ||| name == "zsh"@
}

/// The registration script clap_complete writes for the shell `shell`, with
/// the environment variable `var`, the command `name`, the binary `bin` and
/// the completer program `completer`.
pub uninterp spec fn registration_script(shell: Seq<char>, var: Seq<char>, name: Seq<char>, bin: Seq<char>, completer: Seq<char>) -> Seq<char>;

/// Looks the shell up among `clap_complete::env::Shells::builtins()` and has
/// its `EnvCompleter::write_registration` write the script into a buffer.
/// Claimed: a script exactly for the built-in shell names (those the
/// completers' `is` accepts), named `registration_script` of the arguments;
/// its text is not stated.
#[verifier::external_body]
fn registration(shell: &str, var: &str, name: &str, bin: &str, completer: &str) -> (r: Option<String>)
    ensures
        r is Some <==> is_builtin_shell(shell@),
        r matches Some(s) ==> s@ == registration_script(shell@, var@, name@, bin@, completer@),
{
    let shells = clap_complete::env::Shells::builtins();
    let c = shells.completer(shell)?;
    let mut buf: Vec<u8> = Vec::new();
    c.write_registration(var, name, bin, completer, &mut buf).ok()?;
    String::from_utf8(buf).ok()
}

/// The registration snippet `homeos completion <shell>` prints: the script
/// for the shell, completing `homeos` through the `COMPLETE` variable.
pub fn run_to(shell: CompletionShell) -> (r: Result<String, Failure>)
    ensures
        r matches Ok(s) && s@ == registration_script(engine_name(shell), "COMPLETE"@, "homeos"@, "homeos"@, "homeos"@),
{
    let name = shell.as_engine_name();
    match registration(name, "COMPLETE", "homeos", "homeos", "homeos") {
        Some(s) => Ok(s),
        None => Err(Failure::Other(message3("unknown shell `", name, "`"))),
    }
}

} // verus!
