use homeos::error::{reason_for, reasons, report_lines, Failure, HomeosError};
use homeos::output::OutputFormat;

#[test]
fn test_homeos_error_display_returns_message() {
    let sut = HomeosError::new(reasons::PACKAGE_NOT_FOUND, "Package 'foo' not found".to_string());
    assert_eq!(sut.to_string(), "Package 'foo' not found");
}

#[test]
fn test_homeos_error_carries_reason() {
    let sut = HomeosError::new(reasons::PLUGIN_NOT_FOUND, "Plugin 'bar' not found".to_string());
    assert_eq!(sut.reason, "plugin-not-found");
}

#[test]
fn test_reason_for_returns_homeos_error_reason() {
    let err = Failure::Homeos(HomeosError::new(reasons::PACKAGE_NOT_FOUND, "Package 'foo' not found".to_string()));
    assert_eq!(reason_for(&err), "package-not-found");
}

#[test]
fn test_reason_for_returns_internal_error_for_non_homeos_error() {
    let err = Failure::Other("some random error".to_string());
    assert_eq!(reason_for(&err), "internal-error");
}

fn report(err: &Failure, format: OutputFormat) -> (String, String) {
    let (stdout, stderr) = report_lines(err, format);
    (stdout.map(|l| l + "\n").unwrap_or_default(), stderr + "\n")
}

#[test]
fn test_report_to_text_mode_writes_only_to_stderr() {
    let err = Failure::Homeos(HomeosError::new(reasons::PACKAGE_NOT_FOUND, "Package 'foo' not found".to_string()));
    let (stdout, stderr) = report(&err, OutputFormat::Text);
    assert!(stdout.is_empty());
    assert_eq!(stderr, "Error: Package 'foo' not found\n");
}

#[test]
fn test_report_to_json_mode_writes_to_both() {
    let err = Failure::Homeos(HomeosError::new(reasons::PACKAGE_NOT_FOUND, "Package 'foo' not found".to_string()));
    let (stdout, stderr) = report(&err, OutputFormat::Json);
    let value: serde_json::Value = serde_json::from_str(stdout.trim()).unwrap();
    assert_eq!(value["error"]["reason"], "package-not-found");
    assert_eq!(value["error"]["message"], "Package 'foo' not found");
    assert_eq!(stderr, "Error: Package 'foo' not found\n");
}

#[test]
fn test_report_to_json_mode_uses_internal_error_for_unknown() {
    let err = Failure::Other("boom".to_string());
    let (stdout, _stderr) = report(&err, OutputFormat::Json);
    let value: serde_json::Value = serde_json::from_str(stdout.trim()).unwrap();
    assert_eq!(value["error"]["reason"], "internal-error");
    assert_eq!(value["error"]["message"], "boom");
}

#[test]
fn test_report_to_json_mode_stderr_matches_text_mode() {
    let err = Failure::Homeos(HomeosError::new(reasons::SCRIPT_FAILED, "Script failed with exit code 1".to_string()));
    let (text_stdout, text_stderr) = report(&err, OutputFormat::Text);
    let (json_stdout, json_stderr) = report(&err, OutputFormat::Json);
    assert_eq!(text_stderr, json_stderr);
    assert!(text_stdout.is_empty());
    assert!(!json_stdout.is_empty());
}

#[test]
fn test_report_to_json_escapes_special_characters_in_message() {
    let err = Failure::Homeos(HomeosError::new(reasons::VALIDATION_ERROR, "bad \"quote\"\nand \\back".to_string()));
    let (stdout, _stderr) = report(&err, OutputFormat::Json);
    let value: serde_json::Value = serde_json::from_str(stdout.trim()).unwrap();
    assert_eq!(value["error"]["message"], "bad \"quote\"\nand \\back");
}

#[test]
fn test_report_payload_exact_text() {
    let err = Failure::Homeos(HomeosError::new(reasons::PACKAGE_NOT_FOUND, "Package 'foo' not found".to_string()));
    let (stdout, _) = report_lines(&err, OutputFormat::Json);
    assert_eq!(stdout.unwrap(), "{\"error\":{\"message\":\"Package 'foo' not found\",\"reason\":\"package-not-found\"}}");
}
