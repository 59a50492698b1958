use homeos::config::{Config, PluginConfig};
use homeos::output::OutputFormat;
use homeos::plugins::{list_remote_to, list_to, RemotePlugin};

fn with(plugins: Vec<(&str, Option<&str>)>) -> Config {
    let mut config = Config::default();
    for (name, url) in plugins {
        config.plugins.insert(name.to_string(), PluginConfig { url: url.map(|u| u.to_string()) });
    }
    config
}

fn list(config: &Config, format: OutputFormat) -> String {
    let descriptions: Vec<String> = (0..config.plugins.len()).map(|_| String::new()).collect();
    list_to(config, &descriptions, format)
}

fn remote(name: &str, description: &str, url: &str) -> RemotePlugin {
    RemotePlugin { name: name.to_string(), description: description.to_string(), url: url.to_string() }
}

#[test]
fn registry_test_list_no_plugins() {
    let text = list(&Config::default(), OutputFormat::Text);
    assert!(text.contains("Name"));
    assert!(text.contains("URL"));
    let lines: Vec<&str> = text.lines().collect();
    assert_eq!(lines.len(), 2);
}

#[test]
fn registry_test_list_single_plugin() {
    let text = list(&with(vec![("mise", Some("https://github.com/hainet50b/homeos-plugin-mise"))]), OutputFormat::Text);
    assert!(text.contains("mise"));
    assert!(text.contains("https://github.com/hainet50b/homeos-plugin-mise"));
}

#[test]
fn registry_test_list_multiple_plugins_sorted() {
    let config = with(vec![
        ("rustup", Some("https://github.com/hainet50b/homeos-plugin-rustup")),
        ("mise", Some("https://github.com/hainet50b/homeos-plugin-mise")),
    ]);
    let text = list(&config, OutputFormat::Text);
    let lines: Vec<&str> = text.lines().collect();
    assert_eq!(lines.len(), 4);
    assert!(lines[2].starts_with("mise"));
    assert!(lines[3].starts_with("rustup"));
}

#[test]
fn registry_test_list_table_header_format() {
    let text = list(&with(vec![("mise", Some("https://example.com"))]), OutputFormat::Text);
    let lines: Vec<&str> = text.lines().collect();
    assert!(lines[0].starts_with("Name"));
    assert!(lines[0].contains("Description"));
    assert!(lines[0].contains("URL"));
    assert!(lines[1].starts_with("----"));
    assert!(lines[1].contains("---"));
}

#[test]
fn test_list_description_empty_when_plugin_yml_missing() {
    let text = list(&with(vec![("dnf", Some("https://example.com"))]), OutputFormat::Text);
    let lines: Vec<&str> = text.lines().collect();
    assert_eq!(lines.len(), 3);
    assert!(lines[2].starts_with("dnf"));
    assert!(lines[2].contains("https://example.com"));
}

#[test]
fn registry_test_list_name_column_width_adjusts() {
    let text = list(&with(vec![("long-plugin-name", Some("https://example.com"))]), OutputFormat::Text);
    let lines: Vec<&str> = text.lines().collect();
    assert!(lines[1].starts_with(&"-".repeat(16)));
}

#[test]
fn test_list_url_column_separator_matches_widest_url() {
    let text = list(&with(vec![("dnf", Some("https://github.com/hainet50b/homeos-plugin-dnf"))]), OutputFormat::Text);
    let lines: Vec<&str> = text.lines().collect();
    let url_len = "https://github.com/hainet50b/homeos-plugin-dnf".len();
    let separator_dashes_at_url_position = lines[1].rsplit("  ").next().expect("separator line should have a URL segment");
    assert_eq!(separator_dashes_at_url_position, "-".repeat(url_len));
}

#[test]
fn test_list_renders_local_marker_when_url_is_none() {
    let text = list(&with(vec![("custom", None)]), OutputFormat::Text);
    assert!(text.contains("custom"));
    assert!(text.contains("(local)"));
}

#[test]
fn test_list_shows_description_from_plugin_yml() {
    let config = with(vec![("dnf", Some("https://github.com/hainet50b/homeos-plugin-dnf"))]);
    let text = list_to(&config, &["DNF package manager plugin for homeos.".to_string()], OutputFormat::Text);
    assert!(text.contains("DNF package manager plugin for homeos."));
}

#[test]
fn test_list_json_emits_array_of_objects() {
    let config = with(vec![
        ("dnf", Some("https://github.com/hainet50b/homeos-plugin-dnf")),
        ("mise", Some("https://github.com/hainet50b/homeos-plugin-mise")),
    ]);
    let text = list(&config, OutputFormat::Json);
    let value: serde_json::Value = serde_json::from_str(text.trim()).unwrap();
    let array = value.as_array().expect("expected JSON array");
    assert_eq!(array.len(), 2);
    assert_eq!(array[0]["name"], "dnf");
    assert_eq!(array[0]["url"], "https://github.com/hainet50b/homeos-plugin-dnf");
    assert_eq!(array[1]["name"], "mise");
}

#[test]
fn test_list_json_emits_empty_array_when_no_plugins() {
    let text = list(&Config::default(), OutputFormat::Json);
    let value: serde_json::Value = serde_json::from_str(text.trim()).unwrap();
    assert!(value.as_array().expect("expected JSON array").is_empty());
}

#[test]
fn test_list_json_url_is_null_for_local_plugin() {
    let text = list(&with(vec![("custom", None)]), OutputFormat::Json);
    let value: serde_json::Value = serde_json::from_str(text.trim()).unwrap();
    let array = value.as_array().unwrap();
    assert_eq!(array[0]["name"], "custom");
    assert!(array[0]["url"].is_null());
}

#[test]
fn test_list_json_description_loaded_from_plugin_yml() {
    let config = with(vec![("dnf", Some("https://github.com/hainet50b/homeos-plugin-dnf"))]);
    let text = list_to(&config, &["DNF package manager plugin for homeos.".to_string()], OutputFormat::Json);
    let value: serde_json::Value = serde_json::from_str(text.trim()).unwrap();
    assert_eq!(value.as_array().unwrap()[0]["description"], "DNF package manager plugin for homeos.");
}

#[test]
fn test_list_remote_json_emits_array_of_objects() {
    let text = list_remote_to(
        OutputFormat::Json,
        Ok(vec![
            remote("dnf", "DNF plugin", "https://github.com/hainet50b/homeos-plugin-dnf"),
            remote("mise", "Mise plugin", "https://github.com/hainet50b/homeos-plugin-mise"),
        ]),
    )
    .unwrap();
    let value: serde_json::Value = serde_json::from_str(text.trim()).unwrap();
    let array = value.as_array().expect("expected JSON array");
    assert_eq!(array.len(), 2);
    assert_eq!(array[0]["name"], "dnf");
    assert_eq!(array[0]["description"], "DNF plugin");
    assert_eq!(array[0]["url"], "https://github.com/hainet50b/homeos-plugin-dnf");
    assert_eq!(array[1]["name"], "mise");
}

#[test]
fn test_list_remote_json_emits_empty_array_when_no_plugins() {
    let text = list_remote_to(OutputFormat::Json, Ok(vec![])).unwrap();
    let value: serde_json::Value = serde_json::from_str(text.trim()).unwrap();
    assert!(value.as_array().expect("expected JSON array").is_empty());
}

#[test]
fn test_list_remote_json_sorts_alphabetically() {
    let text = list_remote_to(
        OutputFormat::Json,
        Ok(vec![
            remote("winget", "WinGet plugin", "https://github.com/hainet50b/homeos-plugin-winget"),
            remote("dnf", "DNF plugin", "https://github.com/hainet50b/homeos-plugin-dnf"),
        ]),
    )
    .unwrap();
    let value: serde_json::Value = serde_json::from_str(text.trim()).unwrap();
    let array = value.as_array().unwrap();
    assert_eq!(array[0]["name"], "dnf");
    assert_eq!(array[1]["name"], "winget");
}
