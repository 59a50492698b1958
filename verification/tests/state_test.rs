use homeos::config::{Config, PackageConfig};
use homeos::plan::Action;
use homeos::state::{update_state_per_package, State};

#[test]
fn test_install_records_once() {
    let mut state = State::default();
    let mut config = Config::default();
    update_state_per_package(&mut state, &mut config, Action::Install, "neovim");
    update_state_per_package(&mut state, &mut config, Action::Install, "neovim");
    assert_eq!(state.installed, vec!["neovim"]);
}

#[test]
fn test_uninstall_removes_and_disables() {
    let mut state = State { installed: vec!["a".to_string(), "b".to_string(), "a".to_string()] };
    let mut config = Config::default();
    config.packages.insert("a".to_string(), PackageConfig::default());
    let changed = update_state_per_package(&mut state, &mut config, Action::Uninstall, "a");
    assert!(changed);
    assert_eq!(state.installed, vec!["b"]);
    assert!(!config.packages.get("a").unwrap().enabled);
    let changed = update_state_per_package(&mut state, &mut config, Action::Uninstall, "a");
    assert!(!changed);
}

#[test]
fn test_install_then_uninstall_restores_list() {
    let mut state = State { installed: vec!["x".to_string()] };
    let mut config = Config::default();
    update_state_per_package(&mut state, &mut config, Action::Install, "y");
    update_state_per_package(&mut state, &mut config, Action::Uninstall, "y");
    assert_eq!(state.installed, vec!["x"]);
}

#[test]
fn test_update_changes_nothing() {
    let mut state = State { installed: vec!["x".to_string()] };
    let mut config = Config::default();
    assert!(!update_state_per_package(&mut state, &mut config, Action::Update, "x"));
    assert_eq!(state.installed, vec!["x"]);
}
