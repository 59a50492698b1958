use homeos::apply::{merge_packages, runnable_jobs, script_path};
use homeos::config::{clone_strings, contains_str, names_of, Config, PackageConfig, PluginConfig, PluginManifest};
use homeos::context::Context;
use homeos::error::{reasons, Failure};
use homeos::init::config_missing_error;
use homeos::plan::Action;
use homeos::plugins::{
    check_plugin_addable, invalid_plugin_error, list_json, list_remote_json, list_remote_text, list_text,
    load_plugin_description, packages_using, plugin_added_message, plugin_list_entries, plugin_not_found_error,
    plugin_url, push_all_lines, register_plugin, sort_by_name, RemotePlugin,
};
use homeos::refresh::{fetching_message, refreshed_message, up_to_date_message};
use homeos::registry::{dependents_of, message2, message3, package_dir_exists_error, plugin_not_added_error};
use homeos::shell::{is_windows_powershell_fallback, shell_command};
use homeos::state::{disable_after_uninstall, State};
use homeos::strmap::StrMap;
use homeos::table::table_text;
use homeos::text::{
    byte_len_of, chars_of, join_strings, join_with_newlines, owned, push_decimal, push_i32, push_line,
    push_padded, push_str, str_eq, str_lt,
};
use homeos::update_check::{parse_u64, skip_requested, update_notice};

fn names(v: &[&str]) -> Vec<String> {
    v.iter().map(|s| s.to_string()).collect()
}

fn pkg(deps: &[&str]) -> PackageConfig {
    PackageConfig { depends_on: names(deps), ..Default::default() }
}

fn config(entries: Vec<(&str, PackageConfig)>) -> Config {
    let mut packages = StrMap::new();
    for (name, p) in entries {
        packages.insert(name.to_string(), p);
    }
    Config { packages, ..Default::default() }
}

fn remote(name: &str, description: &str, url: &str) -> RemotePlugin {
    RemotePlugin { name: name.to_string(), description: description.to_string(), url: url.to_string() }
}

#[test]
fn test_text_building_blocks() {
    let mut s = owned("ab");
    push_str(&mut s, "cde");
    push_line(&mut s, "!");
    assert_eq!(s, "abcde!\n");
    let mut p = String::new();
    push_padded(&mut p, "ab", 5);
    push_str(&mut p, "|");
    push_padded(&mut p, "toolong", 3);
    assert_eq!(p, "ab   |toolong");
    let mut n = String::new();
    push_decimal(&mut n, 0);
    push_str(&mut n, ",");
    push_decimal(&mut n, 1507);
    push_str(&mut n, ",");
    push_i32(&mut n, -42);
    push_str(&mut n, ",");
    push_i32(&mut n, i32::MIN);
    assert_eq!(n, "0,1507,-42,-2147483648");
}

#[test]
fn test_text_comparisons_and_lengths() {
    assert!(str_eq("neovim", "neovim"));
    assert!(!str_eq("neovim", "neovi"));
    assert!(str_lt("git", "neovim"));
    assert!(str_lt("git", "gitui"));
    assert!(!str_lt("gitui", "git"));
    assert!(!str_lt("git", "git"));
    assert_eq!(byte_len_of("héllo"), 6);
    assert_eq!(chars_of("héllo"), vec!['h', 'é', 'l', 'l', 'o']);
    assert_eq!(join_strings(&names(&["a", "b", "c"]), ", "), "a, b, c");
    assert_eq!(join_strings(&names(&[]), ", "), "");
    assert_eq!(join_with_newlines(&names(&["x", "y"])), "x\ny");
}

#[test]
fn test_string_list_helpers() {
    let v = names(&["git", "neovim"]);
    assert!(contains_str(&v, "neovim"));
    assert!(!contains_str(&v, "neo"));
    assert_eq!(clone_strings(&v), v);
    let c = config(vec![("zsh", pkg(&[])), ("git", pkg(&[]))]);
    assert_eq!(names_of(&c.packages), vec!["git", "zsh"]);
}

#[test]
fn test_messages() {
    assert_eq!(message2("Removed package: ", "git"), "Removed package: git");
    assert_eq!(message3("Package '", "git", "' not found"), "Package 'git' not found");
    assert_eq!(fetching_message("mise", "https://x/y"), "Fetching mise from https://x/y...");
    assert_eq!(up_to_date_message("mise"), "Plugin 'mise' is up to date");
    assert_eq!(refreshed_message("mise"), "Refreshed plugin 'mise'");
    assert_eq!(plugin_added_message("mise", true), "Plugin 'mise' created locally");
    assert_eq!(plugin_added_message("mise", false), "Plugin 'mise' added successfully");
}

#[test]
fn test_error_values() {
    match config_missing_error("/d/homeos.yml") {
        Failure::Homeos(e) => {
            assert_eq!(e.reason, reasons::NOT_INITIALIZED);
            assert_eq!(e.message, "homeos.yml not found at /d/homeos.yml. Run 'homeos init' first.");
        }
        Failure::Other(_) => panic!("expected a homeos error"),
    }
    match invalid_plugin_error() {
        Failure::Homeos(e) => {
            assert_eq!(e.reason, reasons::NOT_A_VALID_HOMEOS_PLUGIN);
            assert_eq!(e.message, "Not a valid homeos plugin. Cloned directory removed.");
        }
        Failure::Other(_) => panic!("expected a homeos error"),
    }
    match plugin_not_found_error("mise") {
        Failure::Homeos(e) => {
            assert_eq!(e.reason, reasons::PLUGIN_NOT_FOUND);
            assert_eq!(e.message, "Plugin 'mise' not found");
        }
        Failure::Other(_) => panic!("expected a homeos error"),
    }
    match package_dir_exists_error("git") {
        Failure::Other(m) => {
            assert_eq!(m, "Package directory 'git' already exists. Remove it first to re-create.")
        }
        Failure::Homeos(_) => panic!("expected a plain error"),
    }
    match plugin_not_added_error("mise") {
        Failure::Other(m) => assert_eq!(m, "Plugin 'mise' not found. Add it first with: homeos plugin add mise"),
        Failure::Homeos(_) => panic!("expected a plain error"),
    }
}

#[test]
fn test_json_listing_escapes_strings() {
    let entries = vec![("a\"b".to_string(), "c\\d\ne".to_string(), None)];
    assert_eq!(list_json(&entries), "[{\"description\":\"c\\\\d\\ne\",\"name\":\"a\\\"b\",\"url\":null}]");
}

#[test]
fn test_plugin_url_default_and_explicit() {
    assert_eq!(plugin_url("mise", None), "https://github.com/hainet50b/homeos-plugin-mise");
    assert_eq!(plugin_url("mise", Some("https://example.com/m.git")), "https://example.com/m.git");
}

#[test]
fn test_check_plugin_addable() {
    let mut c = Config::default();
    assert!(check_plugin_addable(&c, "mise", false).is_ok());
    match check_plugin_addable(&c, "mise", true) {
        Err(Failure::Homeos(e)) => {
            assert_eq!(e.reason, reasons::ALREADY_EXISTS);
            assert_eq!(e.message, "Plugin directory 'mise' already exists");
        }
        _ => panic!("expected already-exists"),
    }
    register_plugin(&mut c, "mise", Some("https://u".to_string()));
    assert_eq!(c.plugins.get("mise").unwrap().url.as_deref(), Some("https://u"));
    match check_plugin_addable(&c, "mise", false) {
        Err(Failure::Homeos(e)) => assert_eq!(e.message, "Plugin 'mise' already exists"),
        _ => panic!("expected already-exists"),
    }
}

#[test]
fn test_packages_using_plugin() {
    let mut a = pkg(&[]);
    a.plugin = Some("mise".to_string());
    let mut b = pkg(&[]);
    b.plugin = Some("other".to_string());
    let mut z = pkg(&[]);
    z.plugin = Some("mise".to_string());
    let c = config(vec![("zed", z), ("b", b), ("a", a)]);
    assert_eq!(packages_using(&c, "mise"), vec!["a", "zed"]);
    assert!(packages_using(&c, "none").is_empty());
}

#[test]
fn test_dependents_of_skips_packages_being_removed() {
    let c = config(vec![("neovim", pkg(&["git"])), ("lazygit", pkg(&["git"])), ("git", pkg(&[]))]);
    assert_eq!(dependents_of(&c, &names(&["git"]), "git"), vec!["lazygit", "neovim"]);
    assert_eq!(dependents_of(&c, &names(&["git", "neovim"]), "git"), vec!["lazygit"]);
}

#[test]
fn test_plugin_listings() {
    let mut c = Config::default();
    c.plugins.insert("zeta".to_string(), PluginConfig { url: None });
    c.plugins.insert("mise".to_string(), PluginConfig { url: Some("u".to_string()) });
    let entries = plugin_list_entries(&c, &names(&["Tools", "Local one"]));
    assert_eq!(entries[0], ("mise".to_string(), "Tools".to_string(), Some("u".to_string())));
    assert_eq!(entries[1], ("zeta".to_string(), "Local one".to_string(), None));
    assert_eq!(
        list_text(&entries),
        "Name  Description  URL    \n----  -----------  -------\nmise  Tools        u\nzeta  Local one    (local)\n"
    );
    assert_eq!(
        list_json(&entries),
        "[{\"description\":\"Tools\",\"name\":\"mise\",\"url\":\"u\"},{\"description\":\"Local one\",\"name\":\"zeta\",\"url\":null}]"
    );
}

#[test]
fn test_remote_listings() {
    assert_eq!(list_remote_text(&vec![]), "No remote plugins found.\n");
    let ps = vec![remote("mise", "Say \"hi\"", "https://u")];
    assert_eq!(
        list_remote_json(&ps),
        "[{\"description\":\"Say \\\"hi\\\"\",\"name\":\"mise\",\"url\":\"https://u\"}]"
    );
    assert_eq!(
        list_remote_text(&vec![remote("mise", "Tools", "u")]),
        "Name  Description  URL\n----  -----------  ---\nmise  Tools        u\n"
    );
}

#[test]
fn test_sort_by_name_is_stable() {
    let sorted = sort_by_name(vec![remote("b", "1", "u"), remote("a", "2", "u"), remote("b", "3", "u")]);
    let got: Vec<(String, String)> = sorted.into_iter().map(|p| (p.name, p.description)).collect();
    assert_eq!(
        got,
        vec![("a".to_string(), "2".to_string()), ("b".to_string(), "1".to_string()), ("b".to_string(), "3".to_string())]
    );
}

#[test]
fn test_load_plugin_description() {
    let m = PluginManifest { description: "Tools".to_string(), ..Default::default() };
    assert_eq!(load_plugin_description(Some(m)), "Tools");
    assert_eq!(load_plugin_description(None), "");
}

#[test]
fn test_push_all_lines() {
    let mut out = owned("head\n");
    push_all_lines(&mut out, &names(&["a", "b"]));
    assert_eq!(out, "head\na\nb\n");
}

#[test]
fn test_table_text() {
    let rows = vec![("neovim".to_string(), "Editor".to_string(), "https://n".to_string())];
    assert_eq!(
        table_text(&rows),
        "Name    Description  URL      \n------  -----------  ---------\nneovim  Editor       https://n\n"
    );
}

#[test]
fn test_merge_packages_keeps_first_occurrence() {
    assert_eq!(merge_packages(&names(&["a", "b"]), &names(&["b", "c", "a", "d"])), vec!["a", "b", "c", "d"]);
}

#[test]
fn test_runnable_jobs_keeps_acted_on() {
    let jobs = vec![
        ("a".to_string(), Action::Install),
        ("b".to_string(), Action::Update),
        ("c".to_string(), Action::Install),
    ];
    let r = runnable_jobs(&jobs, &names(&["c"]), &names(&["b"]));
    assert_eq!(r, vec![("b".to_string(), Action::Update), ("c".to_string(), Action::Install)]);
}

#[test]
fn test_script_path_uses_alias() {
    let ctx = Context::new(Some("/d".to_string()), None, None);
    let mut p = pkg(&[]);
    p.script_aliases.insert("install".to_string(), "setup".to_string());
    assert_eq!(script_path(&ctx, &p, "git", Action::Install, false), "/d/packages/git/setup.sh");
    assert_eq!(script_path(&ctx, &p, "git", Action::Update, false), "/d/packages/git/update.sh");
    assert_eq!(script_path(&ctx, &p, "git", Action::Update, true), "/d/packages/git/update.ps1");
}

#[test]
fn test_state_records() {
    let mut s = State::default();
    s.record_install("git");
    s.record_install("neovim");
    s.record_install("git");
    assert_eq!(s.installed, vec!["git", "neovim"]);
    s.record_uninstall("git");
    assert_eq!(s.installed, vec!["neovim"]);
    s.record_uninstall("absent");
    assert_eq!(s.installed, vec!["neovim"]);
}

#[test]
fn test_disable_after_uninstall() {
    let mut c = config(vec![("git", pkg(&[]))]);
    assert!(disable_after_uninstall(&mut c, "git"));
    assert!(!c.packages.get("git").unwrap().enabled);
    assert!(!disable_after_uninstall(&mut c, "git"));
    assert!(!disable_after_uninstall(&mut c, "absent"));
}

#[test]
fn test_update_check_helpers() {
    assert_eq!(parse_u64(&['1', '2']), Some(12));
    assert_eq!(parse_u64(&['+', '7']), Some(7));
    assert_eq!(parse_u64(&['+']), None);
    assert_eq!(parse_u64(&['1', 'x']), None);
    assert_eq!(parse_u64(&[]), None);
    assert_eq!(parse_u64(&"18446744073709551616".chars().collect::<Vec<char>>()), None);
    assert!(skip_requested(Some("1")));
    assert!(!skip_requested(Some("")));
    assert!(!skip_requested(None));
    assert_eq!(
        update_notice(Some("v0.2.0"), "v0.1.0"),
        Some("homeos: v0.2.0 available — update at https://github.com/hainet50b/homeos".to_string())
    );
    assert_eq!(update_notice(Some("v0.1.0"), "v0.1.0"), None);
    assert_eq!(update_notice(None, "v0.1.0"), None);
}

#[test]
fn test_shell_on_this_host() {
    if homeos::shell::host_is_windows() {
        assert_eq!(shell_command(true), "pwsh");
        assert!(is_windows_powershell_fallback(false));
    } else {
        assert_eq!(shell_command(true), "sh");
        assert_eq!(shell_command(false), "sh");
        assert!(!is_windows_powershell_fallback(false));
    }
    assert!(!is_windows_powershell_fallback(true));
}

#[test]
fn test_json_listing_escapes_control_characters() {
    let entries = vec![("a".to_string(), "x\u{1}\t\u{1f}/".to_string(), Some("u".to_string()))];
    assert_eq!(list_json(&entries), "[{\"description\":\"x\\u0001\\t\\u001f/\",\"name\":\"a\",\"url\":\"u\"}]");
}

#[test]
fn test_plugin_script_names() {
    let names = homeos::registry::plugin_script_names("sh");
    assert_eq!(
        names,
        vec![
            ("install.sh.tmpl".to_string(), "install.sh".to_string()),
            ("update.sh.tmpl".to_string(), "update.sh".to_string()),
            ("uninstall.sh.tmpl".to_string(), "uninstall.sh".to_string()),
        ]
    );
}

#[test]
fn test_added_message() {
    assert_eq!(homeos::registry::added_message("neovim"), "Added package 'neovim'");
}
