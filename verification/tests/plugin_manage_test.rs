use homeos::config::{Config, PackageConfig, PluginConfig, PluginManifest};
use homeos::context::Context;
use homeos::error::Failure;
use homeos::output::OutputFormat;
use homeos::plugins::{
    add, info_to, list_to, local_plugin_files, plugin_cat_text, plugin_remove_preview, plugin_removed_message,
    repo_check, resolve_cd_target, require_plugin_dir, template_file_names, RepoProbe,
};

fn reason_and_message(f: Failure) -> (String, String) {
    match f {
        Failure::Homeos(e) => (e.reason.to_string(), e.message),
        Failure::Other(m) => ("".to_string(), m),
    }
}

fn config_with_dnf() -> Config {
    let mut config = Config::default();
    config.plugins.insert("dnf".to_string(), PluginConfig { url: Some("https://github.com/hainet50b/homeos-plugin-dnf".to_string()) });
    config
}

#[test]
fn test_info_displays_plugin_details() {
    let config = config_with_dnf();
    let manifest = PluginManifest { description: "DNF package manager plugin for homeos.".to_string(), params: vec!["name".to_string()] };
    let templates = vec![("install.sh.tmpl".to_string(), Some("/p/install.sh.tmpl".to_string())), ("install.ps1.tmpl".to_string(), None)];
    let text = info_to(&config, "dnf", Some(manifest), &templates).unwrap();
    assert!(text.contains("Plugin: dnf"));
    assert!(text.contains("Description: DNF package manager plugin for homeos."));
    assert!(text.contains("URL: https://github.com/hainet50b/homeos-plugin-dnf"));
    assert!(text.contains("Parameters:"));
    assert!(text.contains("  name"));
    assert!(text.contains("Templates:"));
    assert!(text.contains("  install.sh.tmpl (/p/install.sh.tmpl)"));
    assert!(text.contains("  install.ps1.tmpl (not found)"));
}

#[test]
fn test_info_shows_local_and_no_params() {
    let mut config = Config::default();
    config.plugins.insert("mine".to_string(), PluginConfig { url: None });
    let text = info_to(&config, "mine", None, &vec![]).unwrap();
    assert_eq!(text, "Plugin: mine\nDescription: \nURL: (local)\nParameters:\n  (none)\nTemplates:\n");
    let e = info_to(&config, "nope", None, &vec![]).unwrap_err();
    assert_eq!(reason_and_message(e), ("plugin-not-found".to_string(), "Plugin 'nope' not found".to_string()));
}

#[test]
fn test_list_to_local_table_and_json() {
    let mut config = config_with_dnf();
    config.plugins.insert("mine".to_string(), PluginConfig { url: None });
    let descriptions = vec!["DNF".to_string(), "".to_string()];
    let text = list_to(&config, &descriptions, OutputFormat::Text);
    let lines: Vec<&str> = text.lines().collect();
    assert_eq!(lines.len(), 4);
    assert!(lines[2].starts_with("dnf "));
    assert!(lines[3].ends_with("(local)"));
    let json = list_to(&config, &descriptions, OutputFormat::Json);
    assert_eq!(
        json,
        "[{\"description\":\"DNF\",\"name\":\"dnf\",\"url\":\"https://github.com/hainet50b/homeos-plugin-dnf\"},{\"description\":\"\",\"name\":\"mine\",\"url\":null}]\n"
    );
}

#[test]
fn test_add_decisions() {
    let config = config_with_dnf();
    let e = add(&config, "dnf", None, false, false).err().unwrap();
    assert_eq!(reason_and_message(e), ("already-exists".to_string(), "Plugin 'dnf' already exists".to_string()));
    let e = add(&config, "npm", None, true, true).err().unwrap();
    assert_eq!(reason_and_message(e), ("already-exists".to_string(), "Plugin directory 'npm' already exists".to_string()));
    let p = add(&config, "npm", None, false, false).ok().unwrap();
    assert_eq!(p.url.as_deref(), Some("https://github.com/hainet50b/homeos-plugin-npm"));
    assert!(p.check_repo);
    let p = add(&config, "npm", Some("https://x/y"), false, false).ok().unwrap();
    assert_eq!(p.url.as_deref(), Some("https://x/y"));
    assert!(!p.check_repo);
    let p = add(&config, "npm", None, true, false).ok().unwrap();
    assert_eq!(p.url, None);
}

#[test]
fn test_repo_check_outcomes() {
    assert!(repo_check("npm", RepoProbe::Found).is_ok());
    assert_eq!(
        reason_and_message(repo_check("npm", RepoProbe::Missing).unwrap_err()),
        ("not-found-on-github".to_string(), "Plugin 'npm' not found on GitHub (homeos-plugin-npm)".to_string())
    );
    assert_eq!(
        reason_and_message(repo_check("npm", RepoProbe::Failed("timeout".to_string())).unwrap_err()),
        ("network-error".to_string(), "timeout".to_string())
    );
}

#[test]
fn test_local_plugin_files() {
    let files = local_plugin_files();
    assert_eq!(files.len(), 7);
    assert_eq!(files[0], ("plugin.yml".to_string(), "description: Brief description of what this plugin does.\nparams: []\n".to_string()));
    assert_eq!(files[6], ("uninstall.ps1.tmpl".to_string(), "# Generated by homeos. Edit this template for uninstall action.\n".to_string()));
    assert_eq!(template_file_names()[1], "install.ps1.tmpl");
}

#[test]
fn test_remove_preview_warns_about_users() {
    let mut config = config_with_dnf();
    config.packages.insert("vim".to_string(), PackageConfig { plugin: Some("dnf".to_string()), ..Default::default() });
    config.packages.insert("git".to_string(), PackageConfig { plugin: Some("dnf".to_string()), ..Default::default() });
    let text = plugin_remove_preview(&config, "dnf", Some("/p/dnf")).unwrap();
    assert_eq!(
        text,
        "Warning: the following packages reference plugin 'dnf': git, vim\nThe following plugins will be removed from homeos.yml:\n  dnf\n\nThe following directories will be deleted:\n  /p/dnf\n"
    );
    let e = plugin_remove_preview(&config, "nope", None).unwrap_err();
    assert_eq!(reason_and_message(e).0, "plugin-not-found");
    assert_eq!(plugin_removed_message("dnf", false), "Removed plugin 'dnf'");
}

#[test]
fn test_cat_and_cd() {
    let templates = vec![("install.sh.tmpl".to_string(), Some("x\n".to_string())), ("install.ps1.tmpl".to_string(), None)];
    assert_eq!(plugin_cat_text(None, &templates), "=== plugin.yml ===\n(not found)\n\n=== install.sh.tmpl ===\nx\n");
    let ctx = Context::new(Some("/tmp/h".to_string()), None, None);
    let config = config_with_dnf();
    assert_eq!(std::path::Path::new(&resolve_cd_target(&config, &ctx, Some("dnf")).unwrap()), std::path::Path::new("/tmp/h/plugins/dnf"));
    assert_eq!(std::path::Path::new(&resolve_cd_target(&config, &ctx, None).unwrap()), std::path::Path::new("/tmp/h/plugins"));
    assert!(resolve_cd_target(&config, &ctx, Some("zz")).is_err());
    assert_eq!(reason_and_message(require_plugin_dir("/x".to_string(), false).unwrap_err()).0, "directory-not-found");
}
