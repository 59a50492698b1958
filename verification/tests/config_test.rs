use homeos::config::{default_enabled, is_false, is_true, package_completions, plugin_completions, Config, PackageConfig, PluginConfig};

#[test]
fn test_package_config_default_enabled_is_true() {
    let sut = PackageConfig::default();
    assert!(sut.enabled);
    assert!(!sut.archived);
    assert!(sut.script_aliases.is_empty());
    assert!(sut.depends_on.is_empty());
    assert_eq!(sut.plugin, None);
    assert!(sut.params.is_empty());
}

#[test]
fn test_plugin_config_default_url_is_none() {
    let sut = PluginConfig::default();
    assert_eq!(sut.url, None);
}

#[test]
fn test_flag_helpers() {
    assert!(default_enabled());
    assert!(is_true(&true));
    assert!(!is_true(&false));
    assert!(is_false(&false));
    assert!(!is_false(&true));
}

#[test]
fn test_completers_list_configured_names_in_order() {
    let mut config = Config::default();
    config.packages.insert("neovim".to_string(), PackageConfig::default());
    config.packages.insert("helix".to_string(), PackageConfig::default());
    config.packages.insert("bubblewrap".to_string(), PackageConfig::default());
    config.plugins.insert("dnf".to_string(), PluginConfig::default());
    assert_eq!(package_completions(&config), vec!["bubblewrap", "helix", "neovim"]);
    assert_eq!(plugin_completions(&config), vec!["dnf"]);
    assert!(package_completions(&Config::default()).is_empty());
}
