use homeos::completion::{run_to, CompletionShell};

#[test]
fn test_completion_bash_generates_registration_snippet() {
    let output = run_to(CompletionShell::Bash).unwrap();
    assert!(output.contains("_clap_complete_homeos"));
    assert!(output.contains("_CLAP_COMPLETE_INDEX"));
    assert!(output.contains("complete -o nospace"));
    assert!(output.contains("COMPLETE=\"bash\""));
}

#[test]
fn test_completion_zsh_generates_registration_snippet() {
    let output = run_to(CompletionShell::Zsh).unwrap();
    assert!(output.contains("#compdef homeos"));
    assert!(output.contains("_clap_dynamic_completer_homeos"));
    assert!(output.contains("_CLAP_COMPLETE_INDEX"));
    assert!(output.contains("COMPLETE=\"zsh\""));
}

#[test]
fn test_completion_fish_generates_registration_snippet() {
    let output = run_to(CompletionShell::Fish).unwrap();
    assert!(output.contains("complete --keep-order --exclusive --command homeos"));
    assert!(output.contains("COMPLETE=fish"));
}

#[test]
fn test_completion_powershell_generates_registration_snippet() {
    let output = run_to(CompletionShell::PowerShell).unwrap();
    assert!(output.contains("Register-ArgumentCompleter -Native -CommandName homeos"));
    assert!(output.contains("Invoke-Expression"));
    assert!(output.contains("$env:COMPLETE"));
}

#[test]
fn test_completion_elvish_generates_registration_snippet() {
    let output = run_to(CompletionShell::Elvish).unwrap();
    assert!(output.contains("edit:completion:arg-completer[homeos]"));
    assert!(output.contains("_CLAP_COMPLETE_INDEX"));
    assert!(output.contains("COMPLETE=\"elvish\""));
}

#[test]
fn test_engine_names() {
    assert_eq!(CompletionShell::Bash.as_engine_name(), "bash");
    assert_eq!(CompletionShell::PowerShell.as_engine_name(), "powershell");
    assert_eq!(CompletionShell::Elvish.as_engine_name(), "elvish");
}
