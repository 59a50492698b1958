use homeos::config::{Config, PluginConfig, PluginManifest};
use homeos::context::Context;
use homeos::error::Failure;
use homeos::plugins::{info_to, plugin_cat_text, require_plugin, require_plugin_dir, resolve_cd_target, template_file_names};
use std::path::Path;

fn config_with(name: &str, url: Option<&str>) -> Config {
    let mut config = Config::default();
    config.plugins.insert(name.to_string(), PluginConfig { url: url.map(|u| u.to_string()) });
    config
}

fn manifest(description: &str, params: &[&str]) -> PluginManifest {
    PluginManifest { description: description.to_string(), params: params.iter().map(|p| p.to_string()).collect() }
}

fn templates(present: &[(&str, &str)]) -> Vec<(String, Option<String>)> {
    template_file_names()
        .into_iter()
        .map(|f| {
            let found = present.iter().find(|(n, _)| *n == f).map(|(_, v)| v.to_string());
            (f, found)
        })
        .collect()
}

fn ctx() -> Context {
    Context::new(Some("/tmp/view-homeos".to_string()), None, None)
}

#[test]
fn test_info_shows_local_when_url_is_none() {
    let text = info_to(&config_with("custom", None), "custom", None, &templates(&[])).unwrap();
    assert!(text.contains("URL: (local)"));
}

#[test]
fn test_info_shows_none_when_params_empty() {
    let text = info_to(&config_with("dnf", Some("https://example.com")), "dnf", Some(manifest("A plugin", &[])), &templates(&[])).unwrap();
    assert!(text.contains("Parameters:\n  (none)"));
}

#[test]
fn test_info_shows_none_when_plugin_yml_missing() {
    let text = info_to(&config_with("dnf", Some("https://example.com")), "dnf", None, &templates(&[])).unwrap();
    assert!(text.contains("Parameters:\n  (none)"));
}

#[test]
fn test_info_lists_templates_with_full_path_when_present() {
    let present = [("install.sh.tmpl", "/d/dnf/install.sh.tmpl"), ("update.ps1.tmpl", "/d/dnf/update.ps1.tmpl")];
    let text = info_to(&config_with("dnf", Some("https://example.com")), "dnf", Some(manifest("A plugin", &[])), &templates(&present)).unwrap();
    assert!(text.contains("  install.sh.tmpl (/d/dnf/install.sh.tmpl)"));
    assert!(text.contains("  install.ps1.tmpl (not found)"));
    assert!(text.contains("  update.sh.tmpl (not found)"));
    assert!(text.contains("  update.ps1.tmpl (/d/dnf/update.ps1.tmpl)"));
    assert!(text.contains("  uninstall.sh.tmpl (not found)"));
    assert!(text.contains("  uninstall.ps1.tmpl (not found)"));
}

#[test]
fn test_info_lists_all_templates_not_found_when_none_exist() {
    let text = info_to(&config_with("dnf", Some("https://example.com")), "dnf", None, &templates(&[])).unwrap();
    assert!(text.contains("Templates:"));
    for f in template_file_names() {
        assert!(text.contains(&format!("  {f} (not found)")));
    }
}

#[test]
fn test_info_displays_description_from_plugin_yml() {
    let m = manifest("DNF package manager plugin for homeos.", &[]);
    let text = info_to(&config_with("dnf", Some("https://example.com")), "dnf", Some(m), &templates(&[])).unwrap();
    assert!(text.contains("Description: DNF package manager plugin for homeos."));
}

#[test]
fn test_info_shows_empty_description_when_plugin_yml_missing() {
    let text = info_to(&config_with("dnf", Some("https://example.com")), "dnf", None, &templates(&[])).unwrap();
    assert!(text.contains("Description: \n"));
}

#[test]
fn test_info_errors_when_plugin_not_found() {
    let result = info_to(&Config::default(), "nonexistent", None, &templates(&[]));
    assert!(result.is_err());
    assert!(result.unwrap_err().to_string().contains("not found"));
}

#[test]
fn test_info_plugin_not_found_reason() {
    match info_to(&Config::default(), "nonexistent", None, &templates(&[])) {
        Err(Failure::Homeos(e)) => assert_eq!(e.reason, "plugin-not-found"),
        _ => panic!("expected plugin-not-found"),
    }
}

#[test]
fn test_cat_displays_plugin_yml_and_templates() {
    let yml = "description: DNF\nparams:\n  - name\n".to_string();
    let present = [("install.sh.tmpl", "sudo dnf install -y {{name}}\n"), ("uninstall.sh.tmpl", "sudo dnf remove -y {{name}}\n")];
    let text = plugin_cat_text(Some(yml), &templates(&present));
    assert!(text.contains("=== plugin.yml ==="));
    assert!(text.contains("params:\n  - name"));
    assert!(text.contains("=== install.sh.tmpl ==="));
    assert!(text.contains("sudo dnf install -y {{name}}"));
    assert!(text.contains("=== uninstall.sh.tmpl ==="));
    assert!(text.contains("sudo dnf remove -y {{name}}"));
}

#[test]
fn test_cat_plugin_not_found() {
    match require_plugin(&Config::default(), "nonexistent") {
        Err(Failure::Homeos(e)) => {
            assert_eq!(e.reason, "plugin-not-found");
            assert_eq!(e.message, "Plugin 'nonexistent' not found");
        }
        _ => panic!("expected plugin-not-found"),
    }
}

#[test]
fn test_cat_missing_plugin_yml_shows_not_found() {
    let text = plugin_cat_text(None, &templates(&[]));
    assert!(text.contains("=== plugin.yml ==="));
    assert!(text.contains("(not found)"));
}

#[test]
fn test_cat_only_shows_existing_templates() {
    let text = plugin_cat_text(Some("description: x\n".to_string()), &templates(&[("install.sh.tmpl", "x\n")]));
    assert!(text.contains("=== install.sh.tmpl ==="));
    assert!(!text.contains("update.sh.tmpl"));
    assert!(!text.contains("uninstall.sh.tmpl"));
}

#[test]
fn test_cat_shows_both_sh_and_ps1_templates() {
    let present = [("install.sh.tmpl", "sh install\n"), ("install.ps1.tmpl", "ps1 install\n")];
    let text = plugin_cat_text(Some("description: x\n".to_string()), &templates(&present));
    assert!(text.contains("=== install.sh.tmpl ==="));
    assert!(text.contains("sh install"));
    assert!(text.contains("=== install.ps1.tmpl ==="));
    assert!(text.contains("ps1 install"));
}

#[test]
fn test_resolve_cd_target_returns_plugins_dir_when_no_name() {
    let ctx = ctx();
    let result = resolve_cd_target(&Config::default(), &ctx, None).unwrap();
    assert_eq!(result, ctx.plugins_dir());
}

#[test]
fn test_resolve_cd_target_returns_plugin_dir_when_name_given() {
    let ctx = ctx();
    let result = resolve_cd_target(&config_with("dnf", None), &ctx, Some("dnf")).unwrap();
    assert_eq!(Path::new(&result), Path::new(&ctx.plugins_dir()).join("dnf"));
}

#[test]
fn test_resolve_cd_target_errors_when_plugin_not_found() {
    let result = resolve_cd_target(&Config::default(), &ctx(), Some("nonexistent"));
    assert!(result.is_err());
    let err = result.unwrap_err().to_string();
    assert!(err.contains("Plugin 'nonexistent' not found"));
}

#[test]
fn test_resolve_cd_target_errors_when_plugins_dir_missing() {
    let ctx = ctx();
    let dir = resolve_cd_target(&Config::default(), &ctx, None).unwrap();
    let result = require_plugin_dir(dir, false);
    assert!(result.is_err());
    assert!(result.unwrap_err().to_string().contains("Directory not found"));
}

#[test]
fn test_resolve_cd_target_errors_when_plugin_dir_missing() {
    let ctx = ctx();
    let dir = resolve_cd_target(&config_with("dnf", None), &ctx, Some("dnf")).unwrap();
    let result = require_plugin_dir(dir, false);
    assert!(result.is_err());
    assert!(result.unwrap_err().to_string().contains("Directory not found"));
}

#[test]
fn test_plugin_info_names_the_six_templates() {
    let found: Vec<Option<String>> = vec![Some("/p/install.sh.tmpl".to_string()), None, None, None, None, None];
    let text = homeos::plugins::plugin_info(&config_with("custom", None), "custom", None, &found).unwrap();
    assert!(text.contains("Templates:\n  install.sh.tmpl (/p/install.sh.tmpl)\n  install.ps1.tmpl (not found)\n"));
    assert!(text.contains("  uninstall.ps1.tmpl (not found)\n"));
}
