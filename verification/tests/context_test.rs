use homeos::context::{join_path, print_path, resolve_target, Context};
use homeos::error::Failure;
use homeos::output::OutputFormat;
use std::path::Path;

fn ctx() -> Context {
    Context::new(Some("/tmp/test-homeos".to_string()), None, None)
}

#[test]
fn test_data_dir_accessor() {
    let sut = ctx();
    let result = sut.data_dir();
    assert_eq!(Path::new(result), Path::new("/tmp/test-homeos"));
}

#[test]
fn test_config_path() {
    assert_eq!(Path::new(&ctx().config_path()), Path::new("/tmp/test-homeos/homeos.yml"));
}

#[test]
fn test_state_path() {
    assert_eq!(Path::new(&ctx().state_path()), Path::new("/tmp/test-homeos/state.yml"));
}

#[test]
fn test_gitignore_path() {
    assert_eq!(Path::new(&ctx().gitignore_path()), Path::new("/tmp/test-homeos/.gitignore"));
}

#[test]
fn test_packages_dir() {
    assert_eq!(Path::new(&ctx().packages_dir()), Path::new("/tmp/test-homeos/packages"));
}

#[test]
fn test_plugins_dir() {
    assert_eq!(Path::new(&ctx().plugins_dir()), Path::new("/tmp/test-homeos/plugins"));
}

#[test]
fn test_default_output_format_is_text() {
    assert_eq!(ctx().output_format(), OutputFormat::Text);
}

#[test]
fn test_with_output_format_sets_format() {
    let sut = ctx().with_output_format(OutputFormat::Json);
    assert_eq!(sut.output_format(), OutputFormat::Json);
}

#[test]
fn test_with_output_format_preserves_data_dir() {
    let sut = ctx().with_output_format(OutputFormat::Json);
    assert_eq!(Path::new(sut.data_dir()), Path::new("/tmp/test-homeos"));
}

#[test]
fn test_env_var_overrides_default() {
    let sut = Context::new(None, Some("/tmp/env-homeos".to_string()), Some("/home/u/.local/share".to_string()));
    assert_eq!(Path::new(sut.data_dir()), Path::new("/tmp/env-homeos"));
}

#[test]
fn test_explicit_arg_overrides_env_var() {
    let sut = Context::new(Some("/tmp/explicit-homeos".to_string()), Some("/tmp/env-homeos".to_string()), None);
    assert_eq!(Path::new(sut.data_dir()), Path::new("/tmp/explicit-homeos"));
}

#[test]
fn test_default_data_dir_when_env_var_unset() {
    let sut = Context::new(None, None, Some("/home/u/.local/share".to_string()));
    assert_eq!(Path::new(sut.data_dir()), Path::new("/home/u/.local/share").join("homeos"));
}

#[test]
fn test_try_new_returns_some_when_env_var_set() {
    let ctx = Context::try_new(Some("/tmp/try-new-homeos".to_string()), None).expect("try_new should return Some");
    assert_eq!(Path::new(ctx.data_dir()), Path::new("/tmp/try-new-homeos"));
}

#[test]
fn test_try_new_none_without_any_directory() {
    assert!(Context::try_new(None, None).is_none());
}

#[test]
fn test_with_yes() {
    assert!(!ctx().yes());
    assert!(ctx().with_yes(true).yes());
}

#[test]
fn test_join_path_adds_one_separator() {
    assert_eq!(join_path("/a", "b", '/'), "/a/b");
    assert_eq!(join_path("/a/", "b", '/'), "/a/b");
    assert_eq!(join_path("", "b", '/'), "b");
    assert_eq!(join_path("C:\\x", "b", '\\'), "C:\\x\\b");
}

#[test]
fn test_resolve_target_returns_data_dir() {
    let sut = ctx();
    assert_eq!(resolve_target(&sut, true).unwrap(), "/tmp/test-homeos");
}

#[test]
fn test_resolve_target_errors_when_missing() {
    let sut = ctx();
    match resolve_target(&sut, false) {
        Err(Failure::Homeos(e)) => {
            assert_eq!(e.reason, "data-dir-not-found");
            assert_eq!(e.message, "Data directory not found at /tmp/test-homeos. Run 'homeos init' first.");
        }
        _ => panic!("expected a data-dir-not-found error"),
    }
}

#[test]
fn test_print_path_text_and_json() {
    assert_eq!(print_path("/tmp/x", OutputFormat::Text), "/tmp/x");
    assert_eq!(print_path("/tmp/x", OutputFormat::Json), "{\"path\":\"/tmp/x\"}");
}

#[test]
fn test_env_var_value_is_used_verbatim_without_homeos_segment() {
    let sut = Context::new(None, Some("/tmp/custom-data".to_string()), Some("/home/u/.local/share".to_string()));
    assert_eq!(Path::new(sut.data_dir()), Path::new("/tmp/custom-data"));
}

#[test]
fn test_print_path_text_emits_single_line() {
    let dir = "/home/user/.local/share/homeos";
    let text = print_path(dir, OutputFormat::Text) + "\n";
    assert_eq!(text, "/home/user/.local/share/homeos\n");
}

#[test]
fn test_print_path_json_emits_object_with_path() {
    let text = print_path("/home/user/.local/share/homeos", OutputFormat::Json);
    let value: serde_json::Value = serde_json::from_str(&text).unwrap();
    assert_eq!(value["path"], "/home/user/.local/share/homeos");
}

#[test]
fn test_resolve_target_errors_when_not_initialized() {
    let result = resolve_target(&ctx(), false);
    assert!(result.is_err());
    let err = result.unwrap_err().to_string();
    assert!(err.contains("Data directory not found"));
    assert!(err.contains("homeos init"));
}
