use homeos::apply::{execution_order, run_action};
use homeos::config::{Config, PackageConfig};
use homeos::plan::{circular_notice, Action};
use homeos::strmap::StrMap;
use homeos::topo::{reversed, topological_sort};

fn pkg(deps: &[&str]) -> PackageConfig {
    PackageConfig { depends_on: deps.iter().map(|d| d.to_string()).collect(), ..Default::default() }
}

fn config(entries: Vec<(&str, PackageConfig)>) -> Config {
    let mut packages = StrMap::new();
    for (name, p) in entries {
        packages.insert(name.to_string(), p);
    }
    Config { packages, ..Default::default() }
}

fn names(v: &[&str]) -> Vec<String> {
    v.iter().map(|s| s.to_string()).collect()
}

#[test]
fn test_topological_order_for_install_chain() {
    // c depends on b, b depends on a: a runs first, then b, then c.
    let config = config(vec![("c", pkg(&["b"])), ("b", pkg(&["a"])), ("a", pkg(&[]))]);
    let (covered, _) = run_action(&config, &names(&["c"]), Action::Install);
    let order = execution_order(&config, &covered, Action::Install);
    assert_eq!(order.sorted, vec!["a", "b", "c"]);
    assert!(order.cycle.is_empty());
}

#[test]
fn test_topological_order_for_updates() {
    // neovim depends on git: git is updated before neovim when both are in the set.
    let config = config(vec![("neovim", pkg(&["git"])), ("git", pkg(&[]))]);
    let order = topological_sort(&config, &names(&["neovim", "git"]));
    assert_eq!(order.sorted, vec!["git", "neovim"]);
}

#[test]
fn test_update_runs_packages_as_given() {
    let config = config(vec![("neovim", pkg(&["git"])), ("git", pkg(&[]))]);
    let order = execution_order(&config, &names(&["neovim", "git"]), Action::Update);
    assert_eq!(order.sorted, vec!["neovim", "git"]);
    assert!(order.cycle.is_empty());
}

#[test]
fn test_uninstall_runs_dependents_first() {
    let config = config(vec![("neovim", pkg(&["git"])), ("git", pkg(&[]))]);
    let (covered, _) = run_action(&config, &names(&["git"]), Action::Uninstall);
    let order = execution_order(&config, &covered, Action::Uninstall);
    assert_eq!(order.sorted, vec!["neovim", "git"]);
}

#[test]
fn test_cycle_members_are_set_aside() {
    // a and b form a cycle, c has no deps: only c can run.
    let config = config(vec![("a", pkg(&["b"])), ("b", pkg(&["a"])), ("c", pkg(&[]))]);
    let order = topological_sort(&config, &names(&["a", "b", "c"]));
    assert_eq!(order.sorted, vec!["c"]);
    assert_eq!(order.cycle, vec!["a", "b"]);
}

#[test]
fn test_package_waiting_on_cycle_is_set_aside() {
    // d depends on a, which is on the a/b cycle; e is free.
    let config = config(vec![("a", pkg(&["b"])), ("b", pkg(&["a"])), ("d", pkg(&["a"])), ("e", pkg(&[]))]);
    let order = topological_sort(&config, &names(&["d", "a", "e", "b"]));
    assert_eq!(order.sorted, vec!["e"]);
    assert_eq!(order.cycle, vec!["d", "a", "b"]);
}

#[test]
fn test_self_dependency_is_a_cycle() {
    let config = config(vec![("a", pkg(&["a"])), ("b", pkg(&[]))]);
    let order = topological_sort(&config, &names(&["a", "b"]));
    assert_eq!(order.sorted, vec!["b"]);
    assert_eq!(order.cycle, vec!["a"]);
}

#[test]
fn test_dependency_outside_the_set_is_not_waited_on() {
    let config = config(vec![("neovim", pkg(&["git"])), ("git", pkg(&[]))]);
    let order = topological_sort(&config, &names(&["neovim"]));
    assert_eq!(order.sorted, vec!["neovim"]);
    assert!(order.cycle.is_empty());
}

#[test]
fn test_first_ready_package_in_given_order_runs_first() {
    // x and y are both free; z needs y. The given order decides between x and y.
    let config = config(vec![("x", pkg(&[])), ("y", pkg(&[])), ("z", pkg(&["y"]))]);
    let order = topological_sort(&config, &names(&["z", "y", "x"]));
    assert_eq!(order.sorted, vec!["y", "z", "x"]);
}

#[test]
fn test_duplicate_names_run_once() {
    let config = config(vec![("a", pkg(&[]))]);
    let order = topological_sort(&config, &names(&["a", "a"]));
    assert_eq!(order.sorted, vec!["a"]);
    assert!(order.cycle.is_empty());
}

#[test]
fn test_reversed() {
    assert_eq!(reversed(&names(&["a", "b", "c"])), vec!["c", "b", "a"]);
    assert!(reversed(&names(&[])).is_empty());
}

#[test]
fn test_circular_notice() {
    assert_eq!(
        circular_notice(&names(&["a", "b"])),
        "Skipping a (circular dependency)\nSkipping b (circular dependency)"
    );
    assert_eq!(circular_notice(&names(&[])), "");
}
