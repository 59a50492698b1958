use homeos::config::{Config, PackageConfig};
use homeos::registry::{add_aliases, add_deps, require_package, set_enabled};
use homeos::strmap::StrMap;

fn names(v: &[&str]) -> Vec<String> {
    v.iter().map(|s| s.to_string()).collect()
}

fn config(entries: Vec<(&str, PackageConfig)>) -> Config {
    let mut packages = StrMap::new();
    for (name, p) in entries {
        packages.insert(name.to_string(), p);
    }
    Config { packages, ..Default::default() }
}

fn disabled() -> PackageConfig {
    PackageConfig { enabled: false, ..Default::default() }
}

fn with_deps(deps: &[&str]) -> PackageConfig {
    PackageConfig { depends_on: names(deps), ..Default::default() }
}

fn with_alias(target: &str, source: &str, enabled: bool) -> PackageConfig {
    let mut aliases = StrMap::new();
    aliases.insert(target.to_string(), source.to_string());
    PackageConfig { script_aliases: aliases, enabled, ..Default::default() }
}

fn alias_of(config: &Config, pkg: &str, target: &str) -> String {
    config.packages.get(pkg).unwrap().script_aliases.get(target).unwrap().clone()
}

fn enabled(config: &Config, pkg: &str) -> bool {
    config.packages.get(pkg).unwrap().enabled
}

#[test]
fn test_add_dep_adds_dependency_to_existing_package() {
    let mut config = config(vec![("neovim", PackageConfig::default()), ("git", PackageConfig::default())]);
    let result = add_deps(&mut config, "neovim", &names(&["git"]));
    assert!(result.is_ok());
    assert_eq!(config.packages.get("neovim").unwrap().depends_on, vec!["git"]);
}

#[test]
fn test_add_dep_adds_multiple_dependencies() {
    let mut config = config(vec![("neovim", PackageConfig::default()), ("git", PackageConfig::default()), ("curl", PackageConfig::default())]);
    let result = add_deps(&mut config, "neovim", &names(&["git", "curl"]));
    assert!(result.is_ok());
    assert_eq!(config.packages.get("neovim").unwrap().depends_on, vec!["git", "curl"]);
}

#[test]
fn test_add_dep_skips_duplicate_dependency() {
    let mut config = config(vec![("neovim", with_deps(&["git"])), ("git", PackageConfig::default()), ("curl", PackageConfig::default())]);
    let result = add_deps(&mut config, "neovim", &names(&["git", "curl"]));
    assert!(result.is_ok());
    assert_eq!(config.packages.get("neovim").unwrap().depends_on, vec!["git", "curl"]);
}

#[test]
fn test_add_dep_errors_when_package_not_found() {
    let mut config = config(vec![("git", PackageConfig::default())]);
    let result = add_deps(&mut config, "nonexistent", &names(&["git"]));
    assert!(result.is_err());
    assert!(result.unwrap_err().to_string().contains("not found"));
}

#[test]
fn test_add_dep_appends_to_existing_dependencies() {
    let mut config = config(vec![("neovim", with_deps(&["git"])), ("git", PackageConfig::default()), ("curl", PackageConfig::default())]);
    let result = add_deps(&mut config, "neovim", &names(&["curl"]));
    assert!(result.is_ok());
    assert_eq!(config.packages.get("neovim").unwrap().depends_on, vec!["git", "curl"]);
}

#[test]
fn test_add_alias_adds_alias_to_existing_package() {
    let mut config = config(vec![("neovim", PackageConfig::default())]);
    let result = add_aliases(&mut config, "neovim", &[("update".to_string(), "install".to_string())]);
    assert!(result.is_ok());
    assert_eq!(alias_of(&config, "neovim", "update"), "install");
}

#[test]
fn test_add_alias_adds_multiple_aliases() {
    let mut config = config(vec![("neovim", PackageConfig::default())]);
    let result = add_aliases(
        &mut config,
        "neovim",
        &[("update".to_string(), "install".to_string()), ("uninstall".to_string(), "install".to_string())],
    );
    assert!(result.is_ok());
    assert_eq!(alias_of(&config, "neovim", "update"), "install");
    assert_eq!(alias_of(&config, "neovim", "uninstall"), "install");
}

#[test]
fn test_add_alias_skips_duplicate_alias() {
    let mut config = config(vec![("neovim", with_alias("update", "install", true))]);
    let result = add_aliases(
        &mut config,
        "neovim",
        &[("update".to_string(), "install".to_string()), ("uninstall".to_string(), "install".to_string())],
    );
    assert!(result.is_ok());
    assert_eq!(config.packages.get("neovim").unwrap().script_aliases.len(), 2);
    assert_eq!(alias_of(&config, "neovim", "update"), "install");
}

#[test]
fn test_add_alias_errors_when_package_not_found() {
    let mut config = config(vec![("git", PackageConfig::default())]);
    let result = add_aliases(&mut config, "nonexistent", &[("update".to_string(), "install".to_string())]);
    assert!(result.is_err());
    assert!(result.unwrap_err().to_string().contains("not found"));
}

#[test]
fn test_add_alias_appends_to_existing_aliases() {
    let mut config = config(vec![("neovim", with_alias("update", "install", true))]);
    let result = add_aliases(&mut config, "neovim", &[("uninstall".to_string(), "install".to_string())]);
    assert!(result.is_ok());
    assert_eq!(config.packages.get("neovim").unwrap().script_aliases.len(), 2);
    assert_eq!(alias_of(&config, "neovim", "update"), "install");
}

#[test]
fn registry_test_enable_sets_enabled_true() {
    let mut config = config(vec![("neovim", disabled())]);
    assert!(set_enabled(&mut config, &names(&["neovim"]), true).is_ok());
    assert!(enabled(&config, "neovim"));
}

#[test]
fn registry_test_enable_already_enabled_is_noop() {
    let mut config = config(vec![("neovim", PackageConfig::default())]);
    assert!(set_enabled(&mut config, &names(&["neovim"]), true).is_ok());
    assert!(enabled(&config, "neovim"));
}

#[test]
fn registry_test_enable_errors_when_package_not_found() {
    let mut config = config(vec![("neovim", PackageConfig::default())]);
    let result = set_enabled(&mut config, &names(&["nonexistent"]), true);
    assert!(result.is_err());
    assert!(result.unwrap_err().to_string().contains("not found"));
}

#[test]
fn registry_test_enable_preserves_other_fields() {
    let mut config = config(vec![("neovim", with_alias("update", "install", false))]);
    assert!(set_enabled(&mut config, &names(&["neovim"]), true).is_ok());
    assert!(enabled(&config, "neovim"));
    assert_eq!(alias_of(&config, "neovim", "update"), "install");
}

#[test]
fn test_enable_multiple_packages() {
    let mut config = config(vec![("neovim", disabled()), ("ripgrep", disabled())]);
    assert!(set_enabled(&mut config, &names(&["neovim", "ripgrep"]), true).is_ok());
    assert!(enabled(&config, "neovim"));
    assert!(enabled(&config, "ripgrep"));
}

#[test]
fn test_enable_multiple_with_already_enabled() {
    let mut config = config(vec![("neovim", PackageConfig::default()), ("ripgrep", disabled())]);
    assert!(set_enabled(&mut config, &names(&["neovim", "ripgrep"]), true).is_ok());
    assert!(enabled(&config, "neovim"));
    assert!(enabled(&config, "ripgrep"));
}

#[test]
fn test_enable_multiple_errors_on_not_found() {
    let mut config = config(vec![("neovim", disabled())]);
    let result = set_enabled(&mut config, &names(&["neovim", "nonexistent"]), true);
    assert!(result.is_err());
    assert!(result.unwrap_err().to_string().contains("not found"));
}

#[test]
fn registry_test_disable_sets_enabled_false() {
    let mut config = config(vec![("neovim", PackageConfig::default())]);
    assert!(set_enabled(&mut config, &names(&["neovim"]), false).is_ok());
    assert!(!enabled(&config, "neovim"));
}

#[test]
fn registry_test_disable_already_disabled_is_noop() {
    let mut config = config(vec![("neovim", disabled())]);
    assert!(set_enabled(&mut config, &names(&["neovim"]), false).is_ok());
    assert!(!enabled(&config, "neovim"));
}

#[test]
fn registry_test_disable_errors_when_package_not_found() {
    let mut config = config(vec![("neovim", PackageConfig::default())]);
    let result = set_enabled(&mut config, &names(&["nonexistent"]), false);
    assert!(result.is_err());
    assert!(result.unwrap_err().to_string().contains("not found"));
}

#[test]
fn registry_test_disable_preserves_other_fields() {
    let mut config = config(vec![("neovim", with_alias("update", "install", true))]);
    assert!(set_enabled(&mut config, &names(&["neovim"]), false).is_ok());
    assert!(!enabled(&config, "neovim"));
    assert_eq!(alias_of(&config, "neovim", "update"), "install");
}

#[test]
fn test_disable_multiple_packages() {
    let mut config = config(vec![("neovim", PackageConfig::default()), ("ripgrep", PackageConfig::default())]);
    assert!(set_enabled(&mut config, &names(&["neovim", "ripgrep"]), false).is_ok());
    assert!(!enabled(&config, "neovim"));
    assert!(!enabled(&config, "ripgrep"));
}

#[test]
fn test_disable_multiple_with_already_disabled() {
    let mut config = config(vec![("neovim", disabled()), ("ripgrep", PackageConfig::default())]);
    assert!(set_enabled(&mut config, &names(&["neovim", "ripgrep"]), false).is_ok());
    assert!(!enabled(&config, "neovim"));
    assert!(!enabled(&config, "ripgrep"));
}

#[test]
fn test_disable_multiple_errors_on_not_found() {
    let mut config = config(vec![("neovim", PackageConfig::default())]);
    let result = set_enabled(&mut config, &names(&["neovim", "nonexistent"]), false);
    assert!(result.is_err());
    assert!(result.unwrap_err().to_string().contains("not found"));
}

#[test]
fn package_test_enable_sets_enabled_true() {
    let mut config = config(vec![("neovim", disabled())]);
    assert!(set_enabled(&mut config, &names(&["neovim"]), true).is_ok());
    assert!(enabled(&config, "neovim"));
}

#[test]
fn package_test_enable_already_enabled_is_noop() {
    let mut config = config(vec![("neovim", PackageConfig::default())]);
    assert!(set_enabled(&mut config, &names(&["neovim"]), true).is_ok());
    assert!(enabled(&config, "neovim"));
}

#[test]
fn package_test_enable_errors_when_package_not_found() {
    let mut config = config(vec![("neovim", PackageConfig::default())]);
    let result = set_enabled(&mut config, &names(&["nonexistent"]), true);
    assert!(result.is_err());
    assert!(result.unwrap_err().to_string().contains("not found"));
}

#[test]
fn package_test_enable_preserves_other_fields() {
    let mut config = config(vec![("neovim", with_alias("update", "install", false))]);
    assert!(set_enabled(&mut config, &names(&["neovim"]), true).is_ok());
    assert!(enabled(&config, "neovim"));
    assert_eq!(alias_of(&config, "neovim", "update"), "install");
}

#[test]
fn package_test_disable_sets_enabled_false() {
    let mut config = config(vec![("neovim", PackageConfig::default())]);
    assert!(set_enabled(&mut config, &names(&["neovim"]), false).is_ok());
    assert!(!enabled(&config, "neovim"));
}

#[test]
fn package_test_disable_already_disabled_is_noop() {
    let mut config = config(vec![("neovim", disabled())]);
    assert!(set_enabled(&mut config, &names(&["neovim"]), false).is_ok());
    assert!(!enabled(&config, "neovim"));
}

#[test]
fn package_test_disable_errors_when_package_not_found() {
    let mut config = config(vec![("neovim", PackageConfig::default())]);
    let result = set_enabled(&mut config, &names(&["nonexistent"]), false);
    assert!(result.is_err());
    assert!(result.unwrap_err().to_string().contains("not found"));
}

#[test]
fn package_test_disable_preserves_other_fields() {
    let mut config = config(vec![("neovim", with_alias("update", "install", true))]);
    assert!(set_enabled(&mut config, &names(&["neovim"]), false).is_ok());
    assert!(!enabled(&config, "neovim"));
    assert_eq!(alias_of(&config, "neovim", "update"), "install");
}

#[test]
fn registry_test_cat_errors_when_package_not_found() {
    let config = config(vec![("neovim", PackageConfig::default())]);
    let result = require_package(&config, "nonexistent");
    assert!(result.is_err());
    assert!(result.unwrap_err().to_string().contains("not found"));
}

#[test]
fn package_test_cat_errors_when_package_not_found() {
    let config = config(vec![("neovim", PackageConfig::default())]);
    let result = require_package(&config, "nonexistent");
    assert!(result.is_err());
    assert!(result.unwrap_err().to_string().contains("not found"));
}
