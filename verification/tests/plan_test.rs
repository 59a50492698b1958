use homeos::config::{Config, PackageConfig};
use homeos::plan::{confirm_plan, prompt, prompt_confirm, Plan};
use homeos::strmap::StrMap;

fn fixture_config(packages: Vec<(&str, bool)>) -> Config {
    let mut map = StrMap::new();
    for (name, enabled) in packages {
        map.insert(name.to_string(), PackageConfig { enabled, ..Default::default() });
    }
    Config { packages: map, ..Default::default() }
}

fn names(v: &[&str]) -> Vec<String> {
    v.iter().map(|s| s.to_string()).collect()
}

fn plan(action: &str, enabled: &[&str], disabled: &[&str], already: &[&str]) -> Plan {
    Plan { action: action.to_string(), enabled: names(enabled), disabled: names(disabled), already_installed: names(already) }
}

#[test]
fn test_build_plan_separates_enabled_and_disabled() {
    let config = fixture_config(vec![("neovim", true), ("docker", false), ("zed", true)]);
    let packages = names(&["neovim", "docker", "zed"]);
    let sut = Plan::build(&config, &packages, "install", &[]).unwrap();
    assert_eq!(sut.enabled, vec!["neovim", "zed"]);
    assert_eq!(sut.disabled, vec!["docker"]);
    assert_eq!(sut.action, "install");
}

#[test]
fn test_build_plan_all_enabled() {
    let config = fixture_config(vec![("neovim", true), ("ripgrep", true)]);
    let packages = names(&["neovim", "ripgrep"]);
    let sut = Plan::build(&config, &packages, "update", &[]).unwrap();
    assert_eq!(sut.enabled, vec!["neovim", "ripgrep"]);
    assert!(sut.disabled.is_empty());
}

#[test]
fn test_build_plan_all_disabled() {
    let config = fixture_config(vec![("neovim", false), ("docker", false)]);
    let packages = names(&["neovim", "docker"]);
    let sut = Plan::build(&config, &packages, "install", &[]).unwrap();
    assert!(sut.enabled.is_empty());
    assert_eq!(sut.disabled, vec!["neovim", "docker"]);
    assert!(sut.is_empty());
}

#[test]
fn test_build_plan_errors_on_unknown_package() {
    let config = fixture_config(vec![("neovim", true)]);
    let packages = names(&["nonexistent"]);
    let result = Plan::build(&config, &packages, "install", &[]);
    assert!(result.is_err());
    assert!(result.unwrap_err().to_string().contains("not found"));
}

#[test]
fn test_display_shows_enabled_and_disabled() {
    let plan = plan("install", &["neovim", "zed"], &["docker"], &[]);
    let sut = plan.display();
    let expected = "\
The following packages will be installed:
  neovim
  zed
Skipping docker (disabled)";
    assert_eq!(sut, expected);
}

#[test]
fn test_display_only_disabled() {
    let plan = plan("install", &[], &["docker"], &[]);
    assert_eq!(plan.display(), "Skipping docker (disabled)");
}

#[test]
fn test_display_update_verb() {
    let plan = plan("update", &["neovim"], &[], &[]);
    assert!(plan.display().contains("will be updated"));
}

#[test]
fn test_display_uninstall_verb() {
    let plan = plan("uninstall", &["neovim"], &[], &[]);
    assert!(plan.display().contains("will be uninstalled"));
}

#[test]
fn test_prompt_confirm_accepts_y() {
    assert!(prompt_confirm(Some("y\n")));
}

#[test]
fn test_prompt_confirm_accepts_uppercase_y() {
    assert!(prompt_confirm(Some("Y\n")));
}

#[test]
fn test_prompt_confirm_rejects_n() {
    assert!(!prompt_confirm(Some("n\n")));
}

#[test]
fn test_prompt_confirm_rejects_empty() {
    assert!(!prompt_confirm(Some("\n")));
}

#[test]
fn test_prompt_confirm_writes_prompt_text() {
    // The prompt is written before the answer ("n") is read.
    let written = prompt();
    assert!(!prompt_confirm(Some("n\n")));
    assert!(written.contains("Proceed? [y/N]"));
}

#[test]
fn test_confirm_plan_shows_plan_and_prompts() {
    let plan = plan("install", &["neovim"], &["docker"], &[]);
    let written = confirm_plan(&plan);
    let sut = prompt_confirm(Some("y\n"));
    assert!(sut);
    assert!(written.contains("neovim"));
    assert!(written.contains("Skipping docker (disabled)"));
    assert!(written.contains("Proceed? [y/N]"));
}

#[test]
fn test_is_empty_when_no_enabled_packages() {
    let plan = plan("install", &[], &["docker"], &[]);
    assert!(plan.is_empty());
}

#[test]
fn test_is_not_empty_when_has_enabled_packages() {
    let plan = plan("install", &["neovim"], &[], &[]);
    assert!(!plan.is_empty());
}

#[test]
fn test_build_plan_classifies_already_installed() {
    let config = fixture_config(vec![("neovim", true), ("zed", true), ("docker", false)]);
    let packages = names(&["neovim", "zed", "docker"]);
    let installed = vec!["neovim".to_string()];
    let sut = Plan::build(&config, &packages, "install", &installed).unwrap();
    assert_eq!(sut.enabled, vec!["zed"]);
    assert_eq!(sut.disabled, vec!["docker"]);
    assert_eq!(sut.already_installed, vec!["neovim"]);
}

#[test]
fn test_build_plan_all_already_installed() {
    let config = fixture_config(vec![("neovim", true), ("zed", true)]);
    let packages = names(&["neovim", "zed"]);
    let installed = names(&["neovim", "zed"]);
    let sut = Plan::build(&config, &packages, "install", &installed).unwrap();
    assert!(sut.enabled.is_empty());
    assert!(sut.is_empty());
    assert_eq!(sut.already_installed, vec!["neovim", "zed"]);
}

#[test]
fn test_display_shows_already_installed() {
    let plan = plan("install", &["zed"], &[], &["neovim"]);
    let sut = plan.display();
    assert!(sut.contains("Skipping neovim (already installed)"));
    assert!(sut.contains("will be installed"));
    assert!(sut.contains("zed"));
}

#[test]
fn test_prompt_confirm_trims_and_fails_on_read_error() {
    assert!(prompt_confirm(Some("  y  \n")));
    assert!(!prompt_confirm(Some("yes\n")));
    assert!(!prompt_confirm(None));
}

#[test]
fn test_confirm_plan_exact_text() {
    let plan = plan("update", &["git"], &[], &[]);
    assert_eq!(confirm_plan(&plan), "The following packages will be updated:\n  git\n\nProceed? [y/N] ");
}
