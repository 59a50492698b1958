use homeos::action_plan::{
    action_intro, action_plan, answer_line, any_enabled, apply_intro, apply_plan, record_step, run_finish, run_step, script_is_unmodified,
    NextStep, RunState, ScriptEvent,
};
use homeos::state::State;
use homeos::config::{Config, PackageConfig};
use homeos::plan::Action;
use homeos::strmap::StrMap;

fn pkg(deps: &[&str], enabled: bool) -> PackageConfig {
    PackageConfig { depends_on: deps.iter().map(|d| d.to_string()).collect(), enabled, ..Default::default() }
}

fn config(entries: Vec<(&str, PackageConfig)>) -> Config {
    let mut packages = StrMap::new();
    for (name, p) in entries {
        packages.insert(name.to_string(), p);
    }
    Config { packages, ..Default::default() }
}

fn names(v: &[&str]) -> Vec<String> {
    v.iter().map(|s| s.to_string()).collect()
}

fn jobs(v: &[(&str, Action)]) -> Vec<(String, Action)> {
    v.iter().map(|(n, a)| (n.to_string(), *a)).collect()
}

#[test]
fn test_apply_updates_dependency_before_installing_dependent() {
    let c = config(vec![("neovim", pkg(&["git"], true)), ("git", pkg(&[], true))]);
    let plan = apply_plan(&c, &names(&["git"]), &[], false).unwrap();
    assert_eq!(plan.jobs, jobs(&[("git", Action::Update), ("neovim", Action::Install)]));
    let d = plan.display();
    assert!(d.contains("The following packages will be installed:\n  neovim"));
    assert!(d.contains("The following packages will be updated:\n  git (required by neovim)"));
}

#[test]
fn test_apply_installs_enabled_not_in_state_and_updates_enabled_in_state() {
    let c = config(vec![("neovim", pkg(&[], true)), ("ripgrep", pkg(&[], true)), ("docker", pkg(&[], false))]);
    let plan = apply_plan(&c, &names(&["ripgrep"]), &[], false).unwrap();
    assert_eq!(plan.jobs, jobs(&[("neovim", Action::Install), ("ripgrep", Action::Update)]));
    assert_eq!(
        plan.display(),
        "The following packages will be installed:\n  neovim\nThe following packages will be updated:\n  ripgrep\nThe following packages will be skipped:\n  docker (disabled)"
    );
}

#[test]
fn test_apply_nothing_to_do_when_all_disabled() {
    let c = config(vec![("neovim", pkg(&[], false))]);
    let plan = apply_plan(&c, &[], &[], false).unwrap();
    assert!(plan.is_empty());
    assert_eq!(plan.display(), "The following packages will be skipped:\n  neovim (disabled)");
}

#[test]
fn test_apply_renders_single_skipped_header_when_dep_disabled() {
    let c = config(vec![("neovim", pkg(&["git"], true)), ("git", pkg(&[], false))]);
    let plan = apply_plan(&c, &[], &[], false).unwrap();
    assert!(plan.is_empty());
    assert_eq!(
        plan.display(),
        "The following packages will be skipped:\n  git (disabled)\n  neovim (dependency disabled: git)"
    );
}

#[test]
fn test_apply_transitive_dependency_disabled() {
    let c = config(vec![("neovim", pkg(&["git"], true)), ("git", pkg(&["curl"], true)), ("curl", pkg(&[], false))]);
    let plan = apply_plan(&c, &[], &[], false).unwrap();
    assert!(plan.is_empty());
    let d = plan.display();
    assert!(d.contains("  git (dependency disabled: curl)"));
    assert!(d.contains("  neovim (dependency disabled: git)"));
}

#[test]
fn test_apply_skips_unmodified_scripts() {
    let c = config(vec![("neovim", pkg(&[], true)), ("zed", pkg(&[], true))]);
    let unmod = jobs(&[("neovim", Action::Install), ("zed", Action::Update)]);
    let plan = apply_plan(&c, &names(&["zed"]), &unmod, false).unwrap();
    assert!(plan.is_empty());
    let d = plan.display();
    assert!(d.contains("neovim (script unmodified: install.sh)"));
    assert!(d.contains("zed (script unmodified: update.sh)"));
}

#[test]
fn test_uninstall_reverse_deps_included_in_plan() {
    let c = config(vec![("editor", pkg(&["git"], true)), ("git", pkg(&[], true))]);
    let plan = action_plan(&c, &names(&["git"]), Action::Uninstall, &names(&["editor", "git"]), &[], false).unwrap();
    assert_eq!(plan.jobs, jobs(&[("editor", Action::Uninstall), ("git", Action::Uninstall)]));
    assert_eq!(plan.display(), "The following packages will be uninstalled:\n  editor (depends on git)\n  git");
}

#[test]
fn test_uninstall_does_not_pull_in_forward_dependencies() {
    let c = config(vec![("neovim", pkg(&["git"], true)), ("git", pkg(&[], true))]);
    let plan = action_plan(&c, &names(&["neovim"]), Action::Uninstall, &names(&["git", "neovim"]), &[], false).unwrap();
    assert_eq!(plan.jobs, jobs(&[("neovim", Action::Uninstall)]));
    assert!(!plan.display().contains("git"));
}

#[test]
fn test_uninstall_runs_disabled_installed_package() {
    let c = config(vec![("neovim", pkg(&[], false))]);
    let plan = action_plan(&c, &names(&["neovim"]), Action::Uninstall, &names(&["neovim"]), &[], false).unwrap();
    assert_eq!(plan.jobs, jobs(&[("neovim", Action::Uninstall)]));
    assert!(!plan.display().contains("neovim (disabled)"));
}

#[test]
fn test_uninstall_reverse_deps_skips_not_installed() {
    let c = config(vec![("editor", pkg(&["git"], true)), ("git", pkg(&[], true))]);
    let plan = action_plan(&c, &names(&["git"]), Action::Uninstall, &names(&["git"]), &[], false).unwrap();
    assert_eq!(plan.jobs, jobs(&[("git", Action::Uninstall)]));
    assert!(plan.display().contains("  editor (not installed)"));
}

#[test]
fn test_run_action_skips_disabled_packages() {
    let c = config(vec![("neovim", pkg(&[], false))]);
    let plan = action_plan(&c, &names(&["neovim"]), Action::Install, &[], &[], false).unwrap();
    assert!(plan.is_empty());
    let d = plan.display();
    assert!(d.contains("neovim (disabled)"));
    assert!(d.contains("will be skipped"));
}

#[test]
fn test_install_skips_already_installed_and_notes_requester() {
    let c = config(vec![("neovim", pkg(&["git"], true)), ("git", pkg(&["curl"], true)), ("curl", pkg(&[], true))]);
    let plan = action_plan(&c, &names(&["neovim"]), Action::Install, &names(&["curl"]), &[], false).unwrap();
    assert_eq!(plan.jobs, jobs(&[("git", Action::Install), ("neovim", Action::Install)]));
    assert_eq!(
        plan.display(),
        "The following packages will be installed:\n  git (required by neovim)\n  neovim\nThe following packages will be skipped:\n  curl (already installed)"
    );
}

#[test]
fn test_update_skips_not_installed() {
    let c = config(vec![("neovim", pkg(&[], true)), ("git", pkg(&[], true))]);
    let plan = action_plan(&c, &names(&["neovim", "git"]), Action::Update, &names(&["git"]), &[], false).unwrap();
    assert_eq!(plan.jobs, jobs(&[("git", Action::Update)]));
    assert!(plan.display().contains("  neovim (not installed)"));
}

#[test]
fn test_install_skips_circular_dependency_packages() {
    let c = config(vec![("a", pkg(&["b"], true)), ("b", pkg(&["a"], true)), ("c", pkg(&[], true))]);
    let plan = action_plan(&c, &names(&["a", "b", "c"]), Action::Install, &[], &[], false).unwrap();
    assert_eq!(plan.jobs, jobs(&[("c", Action::Install)]));
    let d = plan.display();
    assert!(d.contains("  a (circular dependency)"));
    assert!(d.contains("  b (circular dependency)"));
}

#[test]
fn test_run_action_skips_unmodified_skeleton_script() {
    let c = config(vec![("neovim", pkg(&[], true))]);
    let plan = action_plan(&c, &names(&["neovim"]), Action::Install, &[], &jobs(&[("neovim", Action::Install)]), false)
        .unwrap();
    assert!(plan.is_empty());
    assert!(plan.display().contains("neovim (script unmodified: install.sh)"));
    let plan = action_plan(&c, &names(&["neovim"]), Action::Install, &[], &jobs(&[("neovim", Action::Update)]), false)
        .unwrap();
    assert!(!plan.display().contains("script unmodified"));
}

#[test]
fn test_action_plan_unknown_package_fails() {
    let c = config(vec![("neovim", pkg(&["ghost"], true))]);
    assert!(action_plan(&c, &names(&["neovim"]), Action::Install, &[], &[], false).is_err());
    assert!(apply_plan(&c, &[], &[], false).is_err());
}

#[test]
fn test_script_is_unmodified() {
    assert!(script_is_unmodified("#!/usr/bin/env sh\n# Generated by homeos — fill in install logic.\n"));
    assert!(!script_is_unmodified("#!/usr/bin/env sh\ntouch x\n"));
    assert!(!script_is_unmodified(""));
}

#[test]
fn test_run_steps() {
    let s = RunState { had_errors: false };
    let (s, l) = run_step(s, &ScriptEvent::Succeeded);
    assert_eq!(l, vec!["done"]);
    assert!(!s.had_errors);
    assert_eq!(run_finish(&s), None);
    let (s, l) = run_step(s, &ScriptEvent::Failed("Script failed with exit code 1".to_string()));
    assert_eq!(l, vec!["Error: Script failed with exit code 1", "FAILED"]);
    let (s, l) = run_step(s, &ScriptEvent::Missing("/d/packages/x/install.sh".to_string()));
    assert_eq!(l, vec!["Error: Script not found: /d/packages/x/install.sh"]);
    assert!(s.had_errors);
    assert_eq!(run_finish(&s), Some("Some packages failed".to_string()));
}

#[test]
fn test_package_waiting_on_cycle_is_set_aside_but_not_its_dependency() {
    // d depends on a, which is on the a/b cycle; git is free and d also needs it.
    let c = config(vec![
        ("a", pkg(&["b"], true)),
        ("b", pkg(&["a"], true)),
        ("d", pkg(&["a", "git"], true)),
        ("git", pkg(&[], true)),
    ]);
    let plan = action_plan(&c, &names(&["d"]), Action::Install, &[], &[], false).unwrap();
    assert_eq!(plan.jobs, jobs(&[("git", Action::Install)]));
    let mut cyc = plan.circular_dependency.clone();
    cyc.sort();
    assert_eq!(cyc, vec!["a", "b", "d"]);
}

#[test]
fn test_install_includes_dependencies_in_order() {
    let c = config(vec![("neovim", pkg(&["git"], true)), ("git", pkg(&[], true))]);
    let plan = action_plan(&c, &names(&["neovim"]), Action::Install, &[], &[], false).unwrap();
    assert_eq!(plan.jobs, jobs(&[("git", Action::Install), ("neovim", Action::Install)]));
    assert!(plan.circular_dependency.is_empty());
}

#[test]
fn test_action_intro() {
    let (t, n) = action_intro("", true, false, false);
    assert_eq!(t, "Nothing to do.\n");
    assert!(matches!(n, NextStep::Stop));
    let (t, n) = action_intro("P", true, false, false);
    assert_eq!(t, "P\n\nNothing to do.\n");
    assert!(matches!(n, NextStep::Stop));
    let (t, n) = action_intro("P", false, true, false);
    assert_eq!(t, "P\n");
    assert!(matches!(n, NextStep::Stop));
    let (t, n) = action_intro("P", false, false, false);
    assert_eq!(t, "P\n\n");
    assert!(matches!(n, NextStep::Ask));
    let (_, n) = action_intro("P", false, false, true);
    assert!(matches!(n, NextStep::Run));
}

#[test]
fn test_apply_intro() {
    let (t, n) = apply_intro("", true, false, false, false);
    assert_eq!(t, "Nothing to do.\n");
    assert!(matches!(n, NextStep::Stop));
    let (t, _) = apply_intro("", true, false, false, true);
    assert_eq!(t, "\nNothing to do.\n");
    let (t, n) = apply_intro("P", true, false, false, false);
    assert_eq!(t, "P\n\nNothing to do.\n");
    assert!(matches!(n, NextStep::Stop));
    let (t, n) = apply_intro("P", false, true, false, true);
    assert_eq!(t, "P\n");
    assert!(matches!(n, NextStep::Stop));
    let (t, n) = apply_intro("P", false, false, false, true);
    assert_eq!(t, "P\n\n");
    assert!(matches!(n, NextStep::Ask));
}

#[test]
fn test_any_enabled() {
    assert!(!any_enabled(&config(vec![])));
    assert!(!any_enabled(&config(vec![("docker", pkg(&[], false))])));
    assert!(any_enabled(&config(vec![("docker", pkg(&[], false)), ("git", pkg(&[], true))])));
}

#[test]
fn test_apply_notes_name_first_requester_alphabetically() {
    let c = config(vec![("zed", pkg(&["git"], true)), ("neovim", pkg(&["git"], true)), ("git", pkg(&[], true))]);
    let plan = apply_plan(&c, &[], &[], false).unwrap();
    assert_eq!(plan.notes.get("git").unwrap(), "required by neovim");
    assert_eq!(plan.notes.len(), 1);
}

#[test]
fn test_update_jobs_run_in_given_order() {
    let c = config(vec![("neovim", pkg(&["git"], true)), ("git", pkg(&[], true))]);
    let plan = action_plan(&c, &names(&["neovim", "git"]), Action::Update, &names(&["git", "neovim"]), &[], false).unwrap();
    assert_eq!(plan.jobs, jobs(&[("neovim", Action::Update), ("git", Action::Update)]));
}

#[test]
fn test_answer_line() {
    assert_eq!(answer_line(true), None);
    assert_eq!(answer_line(false), Some("Aborted.".to_string()));
}

#[test]
fn test_record_step_records_only_successes() {
    let mut state = State { installed: names(&["git"]) };
    let mut c = config(vec![("neovim", pkg(&[], true)), ("git", pkg(&[], true))]);
    assert!(!record_step(&mut state, &mut c, "neovim", Action::Install, &ScriptEvent::Failed("x".to_string())));
    assert_eq!(state.installed, names(&["git"]));
    record_step(&mut state, &mut c, "neovim", Action::Install, &ScriptEvent::Succeeded);
    assert_eq!(state.installed, names(&["git", "neovim"]));
    let changed = record_step(&mut state, &mut c, "neovim", Action::Uninstall, &ScriptEvent::Succeeded);
    assert!(changed);
    assert_eq!(state.installed, names(&["git"]));
    assert!(!c.packages.get("neovim").unwrap().enabled);
    record_step(&mut state, &mut c, "git", Action::Uninstall, &ScriptEvent::Missing("p".to_string()));
    assert_eq!(state.installed, names(&["git"]));
}
