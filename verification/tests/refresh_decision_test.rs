use homeos::error::{reasons, Failure};
use homeos::output::OutputFormat;
use homeos::refresh::{refresh_next, Proceed};
use homeos::refresh::{classify_fetch, declined_line, nothing_to_refresh, outcome_text, refresh_question, DiffSummary, Outcome};

fn diff(modified: &[&str]) -> DiffSummary {
    DiffSummary { modified: modified.iter().map(|s| s.to_string()).collect(), added: Vec::new(), removed: Vec::new() }
}

#[test]
fn test_classify_fetch_outcomes() {
    assert!(matches!(classify_fetch(None, false, diff(&[])), Ok(Outcome::LocalSkipped)));
    match classify_fetch(Some("https://u"), false, diff(&[])) {
        Err(Failure::Homeos(e)) => assert_eq!(e.reason, reasons::NOT_A_VALID_HOMEOS_PLUGIN),
        _ => panic!("expected an invalid-plugin error"),
    }
    assert!(matches!(classify_fetch(Some("https://u"), true, diff(&[])), Ok(Outcome::UpToDate)));
    match classify_fetch(Some("https://u"), true, diff(&["a.tmpl"])) {
        Ok(Outcome::Pending(d)) => assert_eq!(d.modified, vec!["a.tmpl"]),
        _ => panic!("expected pending"),
    }
}

#[test]
fn test_outcome_text() {
    assert_eq!(outcome_text("mise", &Outcome::LocalSkipped), "Plugin 'mise' is local; nothing to refresh\n");
    assert_eq!(outcome_text("mise", &Outcome::UpToDate), "Plugin 'mise' is up to date\n");
    assert_eq!(
        outcome_text("mise", &Outcome::Pending(diff(&["a.tmpl"]))),
        "The following files differ from upstream:\n  M a.tmpl\n"
    );
}

#[test]
fn test_nothing_to_refresh() {
    assert_eq!(nothing_to_refresh(true, 0, OutputFormat::Text), Some(Some("No plugins to refresh".to_string())));
    assert_eq!(nothing_to_refresh(true, 0, OutputFormat::Json), Some(None));
    assert_eq!(nothing_to_refresh(true, 2, OutputFormat::Text), None);
    assert_eq!(nothing_to_refresh(false, 0, OutputFormat::Text), None);
}

#[test]
fn test_refresh_question_and_decline() {
    let results = vec![("mise".to_string(), Outcome::Pending(diff(&["a"]))), ("dnf".to_string(), Outcome::UpToDate)];
    assert_eq!(
        refresh_question(false, &results),
        "Local changes will be replaced with upstream content.\nProceed? [y/N] "
    );
    assert!(refresh_question(true, &results).starts_with("Changes detected in:\n"));
    assert!(refresh_question(true, &results).ends_with("Apply all? [y/N] "));
    assert_eq!(declined_line(&results, OutputFormat::Text), Some("Aborted.".to_string()));
    assert_eq!(declined_line(&results, OutputFormat::Json), None);
    let none = vec![("dnf".to_string(), Outcome::UpToDate)];
    assert_eq!(declined_line(&none, OutputFormat::Text), None);
}

#[test]
fn test_refresh_next_dry_run_applies_nothing() {
    let results = vec![("mise".to_string(), Outcome::Pending(diff(&["a"])))];
    assert!(matches!(refresh_next(&results, true, true), Proceed::Nothing));
    assert!(matches!(refresh_next(&results, false, true), Proceed::Apply));
    assert!(matches!(refresh_next(&results, false, false), Proceed::Ask));
}

#[test]
fn test_check_refresh_request() {
    assert!(homeos::refresh::check_refresh_request(Some("mise"), false).is_ok());
    assert!(homeos::refresh::check_refresh_request(None, true).is_ok());
    match homeos::refresh::check_refresh_request(None, false) {
        Err(Failure::Homeos(e)) => assert_eq!(e.reason, reasons::VALIDATION_ERROR),
        _ => panic!("expected a validation error"),
    }
}
