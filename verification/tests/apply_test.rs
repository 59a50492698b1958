use homeos::apply::{
    classify_actions, classify_for_apply, drop_disabled, intra_set_notes, progress_line, run_action,
    script_failed_error, script_missing_line, uninstall_to,
};
use homeos::config::{Config, PackageConfig};
use homeos::error::Failure;
use homeos::plan::Action;
use homeos::strmap::StrMap;

fn pkg(deps: &[&str], enabled: bool) -> PackageConfig {
    PackageConfig { depends_on: deps.iter().map(|d| d.to_string()).collect(), enabled, ..Default::default() }
}

fn config(entries: Vec<(&str, PackageConfig)>) -> Config {
    let mut packages = StrMap::new();
    for (name, p) in entries {
        packages.insert(name.to_string(), p);
    }
    Config { packages, ..Default::default() }
}

fn names(v: &[&str]) -> Vec<String> {
    v.iter().map(|s| s.to_string()).collect()
}

#[test]
fn test_classify_for_apply() {
    let config = config(vec![("a", pkg(&[], true)), ("b", pkg(&[], false)), ("c", pkg(&[], true))]);
    let (ins, upd, dis) = classify_for_apply(&config, &names(&["c"]));
    assert_eq!(ins, vec!["a"]);
    assert_eq!(upd, vec!["c"]);
    assert_eq!(dis, vec!["b"]);
}

#[test]
fn test_drop_disabled_keeps_unknown() {
    let config = config(vec![("a", pkg(&[], true)), ("b", pkg(&[], false))]);
    assert_eq!(drop_disabled(&config, &names(&["a", "b", "zz"])), vec!["a", "zz"]);
}

#[test]
fn test_intra_set_notes_picks_first_requester_alphabetically() {
    let config = config(vec![("zed", pkg(&["git"], true)), ("neovim", pkg(&["git"], true)), ("git", pkg(&[], true))]);
    let notes = intra_set_notes(&config, &names(&["git", "zed", "neovim"]));
    assert_eq!(notes.get("git").unwrap(), "required by neovim");
    assert!(!notes.contains_key("zed"));
    assert_eq!(notes.len(), 1);
}

#[test]
fn test_classify_actions() {
    let r = classify_actions(&names(&["a", "b"]), &names(&["b"]));
    assert_eq!(r, vec![("a".to_string(), Action::Install), ("b".to_string(), Action::Update)]);
}

#[test]
fn test_uninstall_all_uses_installed() {
    assert_eq!(uninstall_to(&names(&["x"]), true, &names(&["a", "b"])), vec!["a", "b"]);
    assert_eq!(uninstall_to(&names(&["x"]), false, &names(&["a", "b"])), vec!["x"]);
}

#[test]
fn test_run_action_scopes() {
    let config = config(vec![("editor", pkg(&["git"], true)), ("git", pkg(&[], true))]);
    let (upd, notes) = run_action(&config, &names(&["git"]), Action::Update);
    assert_eq!(upd, vec!["git"]);
    assert!(notes.is_empty());
    let (mut uninst, notes) = run_action(&config, &names(&["git"]), Action::Uninstall);
    uninst.sort();
    assert_eq!(uninst, vec!["editor", "git"]);
    assert_eq!(notes.get("editor").unwrap(), "depends on git");
    let (mut inst, _) = run_action(&config, &names(&["editor"]), Action::Install);
    inst.sort();
    assert_eq!(inst, vec!["editor", "git"]);
}

#[test]
fn test_script_messages() {
    assert_eq!(progress_line(Action::Uninstall, "neovim"), "Uninstalling neovim...");
    assert_eq!(script_missing_line("/p/x.sh"), "Error: Script not found: /p/x.sh");
    match script_failed_error(Some(3)) {
        Failure::Homeos(e) => {
            assert_eq!(e.reason, "script-failed");
            assert_eq!(e.message, "Script failed with exit code 3");
        }
        _ => panic!("expected script-failed"),
    }
    match script_failed_error(None) {
        Failure::Homeos(e) => assert_eq!(e.message, "Script failed with exit code unknown"),
        _ => panic!("expected script-failed"),
    }
    match script_failed_error(Some(-1)) {
        Failure::Homeos(e) => assert_eq!(e.message, "Script failed with exit code -1"),
        _ => panic!("expected script-failed"),
    }
}
