use homeos::config::{Config, PackageConfig};
use homeos::error::Failure;
use homeos::registry::{
    add_aliases, add_deps, add_package, check_params, check_removable, list_to, plugin_script_plan, remove_aliases,
    remove_deps, remove_packages, remove_preview, removed_message_for, script_file_names, set_enabled, skeleton_plan,
    skeleton_script_content, skeleton_scripts, package_cat_text, require_dir,
};
use homeos::strmap::StrMap;
use homeos::template::{render_template, replace_all};

fn pkg(deps: &[&str]) -> PackageConfig {
    PackageConfig { depends_on: deps.iter().map(|d| d.to_string()).collect(), ..Default::default() }
}

fn config(entries: Vec<(&str, PackageConfig)>) -> Config {
    let mut packages = StrMap::new();
    for (name, p) in entries {
        packages.insert(name.to_string(), p);
    }
    Config { packages, ..Default::default() }
}

fn names(v: &[&str]) -> Vec<String> {
    v.iter().map(|s| s.to_string()).collect()
}

fn other_message(r: Result<(), Failure>) -> String {
    match r {
        Err(Failure::Other(m)) => m,
        _ => panic!("expected an error"),
    }
}

#[test]
fn test_list_shows_enabled_and_installed_columns() {
    let mut off = PackageConfig::default();
    off.enabled = false;
    let config = config(vec![("neovim", PackageConfig::default()), ("docker", off)]);
    let text = list_to(&config, &names(&["neovim"]));
    assert_eq!(
        text,
        "Package  Enabled  Installed\n-------  -------  ---------\ndocker   no       no\nneovim   yes      yes\n"
    );
}

#[test]
fn test_add_package_declares_with_defaults() {
    let mut config = config(vec![]);
    let mut aliases = StrMap::new();
    aliases.insert("update".to_string(), "install".to_string());
    add_package(&mut config, "neovim", &names(&["git"]), aliases, Some("dnf"), StrMap::new()).unwrap();
    let p = config.packages.get("neovim").unwrap();
    assert!(p.enabled);
    assert_eq!(p.depends_on, vec!["git"]);
    assert_eq!(p.plugin.as_deref(), Some("dnf"));
    assert_eq!(p.script_aliases.get("update").unwrap(), "install");
}

#[test]
fn test_add_package_refuses_duplicate() {
    let mut config = config(vec![("neovim", PackageConfig::default())]);
    let r = add_package(&mut config, "neovim", &[], StrMap::new(), None, StrMap::new());
    assert_eq!(other_message(r), "Package 'neovim' already exists");
}

#[test]
fn test_check_params_lists_missing_in_order() {
    let mut given = StrMap::new();
    given.insert("name".to_string(), "x".to_string());
    assert!(check_params(&names(&["name"]), &given).is_ok());
    let r = check_params(&names(&["version", "name", "arch"]), &given);
    assert_eq!(other_message(r), "Missing required plugin parameters: version, arch");
}

#[test]
fn test_render_template_replaces_each_placeholder() {
    let mut params = StrMap::new();
    params.insert("name".to_string(), "ripgrep".to_string());
    params.insert("tap".to_string(), "core".to_string());
    let out = render_template("install {{name}} from {{tap}}; again {{name}}; keep {{other}}", &params);
    assert_eq!(out, "install ripgrep from core; again ripgrep; keep {{other}}");
}

#[test]
fn test_replace_all_is_left_to_right_and_non_overlapping() {
    assert_eq!(replace_all("aaaa", "aa", "b"), "bb");
    assert_eq!(replace_all("aaa", "aa", "b"), "ba");
    assert_eq!(replace_all("abc", "x", "y"), "abc");
    assert_eq!(replace_all("", "x", "y"), "");
}

#[test]
fn test_skeleton_scripts_and_content() {
    assert_eq!(
        skeleton_scripts(),
        vec![("install", "sh"), ("install", "ps1"), ("update", "sh"), ("update", "ps1"), ("uninstall", "sh"), ("uninstall", "ps1")]
    );
    assert_eq!(
        skeleton_script_content("install", "sh", "neovim"),
        "#!/usr/bin/env sh\n# Generated by homeos \u{2014} fill in the install logic for neovim.\n"
    );
    assert_eq!(
        skeleton_script_content("update", "ps1", "neovim"),
        "# Generated by homeos \u{2014} fill in the update logic for neovim.\n"
    );
}

#[test]
fn test_skeleton_plan_skips_existing_files() {
    let plan = skeleton_plan("x", &[true, false, true, true, true, false]);
    assert_eq!(plan.len(), 2);
    assert_eq!(plan[0].0, "install.ps1");
    assert_eq!(plan[1].0, "uninstall.ps1");
    assert!(plan[1].1.contains("uninstall logic for x"));
}

#[test]
fn test_plugin_script_plan_needs_template_and_no_script() {
    let plan = plugin_script_plan("sh", &[true, true, false], &[false, true, false]);
    assert_eq!(plan, vec![("install.sh.tmpl".to_string(), "install.sh".to_string())]);
}

#[test]
fn test_remove_refuses_unknown_then_installed_then_depended_on() {
    let config = config(vec![("editor", pkg(&["git"])), ("git", PackageConfig::default())]);
    assert_eq!(other_message(check_removable(&config, &names(&["nope", "git"]), &[])), "Package 'nope' not found");
    assert_eq!(
        other_message(check_removable(&config, &names(&["git"]), &names(&["git"]))),
        "Package 'git' is currently installed. Uninstall it first with: homeos package uninstall git"
    );
    assert_eq!(
        other_message(check_removable(&config, &names(&["git"]), &[])),
        "Cannot remove package 'git' because it is depended on by: editor"
    );
    assert!(check_removable(&config, &names(&["git", "editor"]), &[]).is_ok());
}

#[test]
fn test_remove_preview_and_messages() {
    assert_eq!(
        remove_preview(&names(&["a", "b"]), &names(&["/d/a"])),
        "The following packages will be removed from homeos.yml:\n  a\n  b\n\nThe following directories will be deleted:\n  /d/a\n"
    );
    assert_eq!(remove_preview(&names(&["a"]), &[]), "The following packages will be removed from homeos.yml:\n  a\n");
    assert_eq!(removed_message_for("a", true), "Removed package 'a' and removed directory");
    assert_eq!(removed_message_for("a", false), "Removed package 'a'");
}

#[test]
fn test_remove_packages_keeps_others() {
    let mut config = config(vec![("a", PackageConfig::default()), ("b", PackageConfig::default()), ("c", PackageConfig::default())]);
    remove_packages(&mut config, &names(&["a", "c"]));
    assert!(!config.packages.contains_key("a"));
    assert!(config.packages.contains_key("b"));
    assert!(!config.packages.contains_key("c"));
}

#[test]
fn test_add_dep_then_remove_dep_restores() {
    let mut config = config(vec![("neovim", pkg(&["curl"]))]);
    let msgs = add_deps(&mut config, "neovim", &names(&["git", "curl", "git"])).unwrap();
    assert_eq!(
        msgs,
        vec![
            "Added dependency 'git' to package 'neovim'",
            "Package 'neovim' already depends on 'curl'",
            "Package 'neovim' already depends on 'git'",
        ]
    );
    assert_eq!(config.packages.get("neovim").unwrap().depends_on, vec!["curl", "git"]);
    let msgs = remove_deps(&mut config, "neovim", &names(&["git", "make"])).unwrap();
    assert_eq!(
        msgs,
        vec!["Removed dependency 'git' from package 'neovim'", "Package 'neovim' does not depend on 'make'"]
    );
    assert_eq!(config.packages.get("neovim").unwrap().depends_on, vec!["curl"]);
    assert!(add_deps(&mut config, "nope", &[]).is_err());
}

#[test]
fn test_aliases_add_and_remove() {
    let mut config = config(vec![("neovim", PackageConfig::default())]);
    let aliases = vec![("update".to_string(), "install".to_string()), ("update".to_string(), "other".to_string())];
    let msgs = add_aliases(&mut config, "neovim", &aliases).unwrap();
    assert_eq!(msgs, vec!["Added alias 'update=install' to package 'neovim'", "Package 'neovim' already has alias 'update'"]);
    assert_eq!(config.packages.get("neovim").unwrap().script_aliases.get("update").unwrap(), "install");
    let msgs = remove_aliases(&mut config, "neovim", &names(&["update", "update"])).unwrap();
    assert_eq!(msgs, vec!["Removed alias 'update' from package 'neovim'", "Package 'neovim' does not have alias 'update'"]);
    assert!(config.packages.get("neovim").unwrap().script_aliases.is_empty());
}

#[test]
fn test_enable_and_disable() {
    let mut config = config(vec![("a", PackageConfig::default())]);
    let msgs = set_enabled(&mut config, &names(&["a", "a"]), false).unwrap();
    assert_eq!(msgs, vec!["Disabled package 'a'", "Package 'a' is already disabled"]);
    assert!(!config.packages.get("a").unwrap().enabled);
    let msgs = set_enabled(&mut config, &names(&["a"]), true).unwrap();
    assert_eq!(msgs, vec!["Enabled package 'a'"]);
    match set_enabled(&mut config, &names(&["zz"]), true) {
        Err(Failure::Other(m)) => assert_eq!(m, "Package 'zz' not found"),
        _ => panic!("expected not found"),
    }
}

#[test]
fn test_cat_text_and_dir_checks() {
    assert_eq!(script_file_names(), vec!["install.sh", "install.ps1", "update.sh", "update.ps1", "uninstall.sh", "uninstall.ps1"]);
    let sections = vec![("install.sh".to_string(), Some("echo hi\n".to_string())), ("install.ps1".to_string(), None)];
    assert_eq!(package_cat_text(&sections), "=== install.sh ===\necho hi\n\n=== install.ps1 ===\n(not found)\n");
    assert_eq!(require_dir("/x".to_string(), true).unwrap(), "/x");
    match require_dir("/x".to_string(), false) {
        Err(Failure::Other(m)) => assert_eq!(m, "Directory not found at /x"),
        _ => panic!("expected an error"),
    }
}

#[test]
fn test_render_with_placeholder_as_its_own_value_changes_nothing() {
    let mut params = StrMap::new();
    params.insert("name".to_string(), "{{name}}".to_string());
    let text = "x {{name}} y";
    assert_eq!(render_template(text, &params), text);
    assert_eq!(replace_all("no braces here", "{{a}}", "z"), "no braces here");
}
