use homeos::guide::{commands_reference, render, ArgInfo, CommandInfo};

fn arg(id: &str, positional: bool, long: Option<&str>, help: Option<&str>) -> ArgInfo {
    ArgInfo {
        id: id.to_string(),
        positional,
        long: long.map(|l| l.to_string()),
        short: None,
        help: help.map(|h| h.to_string()),
        hidden: false,
        global: false,
    }
}

fn cmd(name: &str, about: Option<&str>, args: Vec<ArgInfo>, subs: Vec<CommandInfo>) -> CommandInfo {
    CommandInfo { name: name.to_string(), about: about.map(|a| a.to_string()), args, subcommands: subs }
}

fn tree() -> CommandInfo {
    let mut global = arg("format", false, Some("format"), Some("Output format"));
    global.global = true;
    let install = cmd(
        "install",
        Some("Install packages"),
        vec![
            arg("packages", true, None, Some("Packages to install")),
            arg("dry_run", false, Some("dry-run"), None),
            arg("help", false, Some("help"), Some("Print help")),
            global,
        ],
        vec![cmd("help", None, vec![], vec![])],
    );
    let package = cmd("package", Some("Manage packages"), vec![], vec![install, cmd("help", None, vec![], vec![])]);
    let init = cmd("init", Some("Initialize the data directory"), vec![], vec![]);
    cmd("homeos", None, vec![], vec![init, package, cmd("help", None, vec![], vec![])])
}

#[test]
fn test_commands_reference_lists_leaves() {
    assert_eq!(
        commands_reference(&tree()),
        "### `homeos init`\n\nInitialize the data directory\n\n### `homeos package install`\n\nInstall packages\n\n- `<PACKAGES>` — Packages to install\n- `--dry-run`"
    );
}

#[test]
fn test_commands_reference_omits_help_subcommand() {
    assert!(!commands_reference(&tree()).contains("homeos help"));
    assert!(!commands_reference(&tree()).contains("### `homeos package`"));
}

#[test]
fn test_short_and_id_identifiers() {
    let mut s = arg("verbose", false, None, Some("More output"));
    s.short = Some('v');
    let bare = arg("raw", false, None, None);
    let root = cmd("homeos", None, vec![], vec![cmd("x", None, vec![s, bare], vec![])]);
    assert_eq!(commands_reference(&root), "### `homeos x`\n\n- `-v` — More output\n- `raw`");
}

#[test]
fn test_render_substitutes_placeholder() {
    assert_eq!(render("# Guide\r\n\r\n{{ commands_reference }}\r\n", "REF"), "# Guide\n\nREF\n");
    assert!(!render("a {{ commands_reference }} b", "x").contains("{{ commands_reference }}"));
}
