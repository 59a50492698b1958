use homeos::config::{Config, PackageConfig};
use homeos::deps::{expand_dependencies, expand_reverse_dependencies};
use homeos::strmap::StrMap;

fn pkg(deps: &[&str]) -> PackageConfig {
    PackageConfig { depends_on: deps.iter().map(|d| d.to_string()).collect(), ..Default::default() }
}

fn config(entries: Vec<(&str, PackageConfig)>) -> Config {
    let mut packages = StrMap::new();
    for (name, p) in entries {
        packages.insert(name.to_string(), p);
    }
    Config { packages, ..Default::default() }
}

#[test]
fn test_expand_dependencies_no_deps() {
    let config = config(vec![("neovim", PackageConfig::default())]);
    let (sut, notes) = expand_dependencies(&config, &["neovim".to_string()]);
    assert_eq!(sut, vec!["neovim"]);
    assert!(notes.is_empty());
}

#[test]
fn test_expand_dependencies_includes_transitive() {
    let config = config(vec![("neovim", pkg(&["git"])), ("git", pkg(&["curl"])), ("curl", PackageConfig::default())]);
    let (sut, _notes) = expand_dependencies(&config, &["neovim".to_string()]);
    let mut sorted = sut.clone();
    sorted.sort();
    assert_eq!(sorted, vec!["curl", "git", "neovim"]);
}

#[test]
fn test_expand_dependencies_no_duplicates() {
    let config = config(vec![("neovim", pkg(&["git"])), ("zed", pkg(&["git"])), ("git", PackageConfig::default())]);
    let (sut, _notes) = expand_dependencies(&config, &["neovim".to_string(), "zed".to_string()]);
    let git_count = sut.iter().filter(|s| s.as_str() == "git").count();
    assert_eq!(git_count, 1);
    assert_eq!(sut.len(), 3);
}

#[test]
fn test_expand_dependencies_unknown_dep_included_as_is() {
    let config = config(vec![("neovim", pkg(&["unknown_pkg"]))]);
    let (sut, _notes) = expand_dependencies(&config, &["neovim".to_string()]);
    let mut sorted = sut.clone();
    sorted.sort();
    assert_eq!(sorted, vec!["neovim", "unknown_pkg"]);
}

#[test]
fn test_expand_dependencies_annotates_direct_dependency() {
    let config = config(vec![("neovim", pkg(&["git"])), ("git", PackageConfig::default())]);
    let (_expanded, notes) = expand_dependencies(&config, &["neovim".to_string()]);
    assert_eq!(notes.get("git").unwrap(), "required by neovim");
    assert!(!notes.contains_key("neovim"));
}

#[test]
fn test_expand_dependencies_annotates_transitive_with_most_direct_requester() {
    let config = config(vec![("a", pkg(&["b"])), ("b", pkg(&["c"])), ("c", PackageConfig::default())]);
    let (_expanded, notes) = expand_dependencies(&config, &["a".to_string()]);
    assert_eq!(notes.get("b").unwrap(), "required by a");
    assert_eq!(notes.get("c").unwrap(), "required by b");
    assert!(!notes.contains_key("a"));
}

#[test]
fn test_expand_dependencies_no_note_for_explicitly_requested_package() {
    let config = config(vec![("a", pkg(&["b"])), ("b", PackageConfig::default())]);
    let (_expanded, notes) = expand_dependencies(&config, &["a".to_string(), "b".to_string()]);
    assert!(notes.is_empty());
}

#[test]
fn test_expand_reverse_dependencies_no_dependents() {
    let config = config(vec![("neovim", PackageConfig::default())]);
    let (expanded, notes) = expand_reverse_dependencies(&config, &["neovim".to_string()]);
    assert_eq!(expanded, vec!["neovim"]);
    assert!(notes.is_empty());
}

#[test]
fn test_expand_reverse_dependencies_includes_direct_dependent() {
    let config = config(vec![("editor", pkg(&["git"])), ("git", PackageConfig::default())]);
    let (expanded, notes) = expand_reverse_dependencies(&config, &["git".to_string()]);
    let mut sorted = expanded.clone();
    sorted.sort();
    assert_eq!(sorted, vec!["editor", "git"]);
    assert_eq!(notes.get("editor").unwrap(), "depends on git");
    assert!(!notes.contains_key("git"));
}

#[test]
fn test_expand_reverse_dependencies_transitive() {
    let config = config(vec![("a", PackageConfig::default()), ("b", pkg(&["a"])), ("c", pkg(&["b"]))]);
    let (expanded, notes) = expand_reverse_dependencies(&config, &["a".to_string()]);
    let mut sorted = expanded.clone();
    sorted.sort();
    assert_eq!(sorted, vec!["a", "b", "c"]);
    assert_eq!(notes.get("b").unwrap(), "depends on a");
    assert_eq!(notes.get("c").unwrap(), "depends on b");
}

#[test]
fn test_expand_reverse_dependencies_no_note_for_requested() {
    let config = config(vec![("editor", pkg(&["git"])), ("git", PackageConfig::default())]);
    let (_, notes) = expand_reverse_dependencies(&config, &["git".to_string(), "editor".to_string()]);
    assert!(notes.is_empty());
}

#[test]
fn test_expand_dependencies_handles_a_cycle() {
    let config = config(vec![("a", pkg(&["b"])), ("b", pkg(&["a"]))]);
    let (expanded, notes) = expand_dependencies(&config, &["a".to_string()]);
    let mut sorted = expanded.clone();
    sorted.sort();
    assert_eq!(sorted, vec!["a", "b"]);
    assert_eq!(notes.get("b").unwrap(), "required by a");
    assert_eq!(notes.len(), 1);
}

#[test]
fn test_expansions_are_dual_on_a_chain() {
    let config = config(vec![("a", pkg(&["b"])), ("b", pkg(&["c"])), ("c", PackageConfig::default()), ("d", PackageConfig::default())]);
    for (p, x) in [("a", "c"), ("a", "d"), ("b", "a"), ("c", "c")] {
        let (down, _) = expand_dependencies(&config, &[p.to_string()]);
        let (up, _) = expand_reverse_dependencies(&config, &[x.to_string()]);
        assert_eq!(down.contains(&x.to_string()), up.contains(&p.to_string()));
    }
}
