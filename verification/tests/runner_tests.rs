use mq_content_lint::config::{FileConfig, LintConfig};
use mq_content_lint::custom_rules::CustomRule;
use mq_content_lint::runner::{compute_diff, fix_source, fix_source_once, lint_content, lint_items, process_text, LintFailure};
use mq_content_lint::{Linter, Severity};

fn config_with(custom_rules: Vec<CustomRule>, required_keys: Vec<String>) -> LintConfig {
    LintConfig::from_file_config(FileConfig { rules: Vec::new(), required_keys, custom_rules, ignore: Vec::new() })
        .unwrap()
}

#[test]
fn test_lint_content_filters_by_min_severity() {
    let linter = Linter::with_default_rules();
    let config = LintConfig::default();
    let diagnostics = lint_content("![](x.png)\n", &linter, &config, Severity::Error).unwrap();
    assert_eq!(diagnostics.len(), 1);
    let none = lint_content("# ok\n", &linter, &config, Severity::Error).unwrap();
    assert!(none.is_empty());
}

#[test]
fn test_fix_source_applies_fixes_in_one_pass() {
    let linter = Linter::with_default_rules();
    let config = LintConfig::default();
    let (fixed, count, items) = fix_source("#Title\n", &linter, &config).unwrap();
    assert_eq!(fixed, "# Title\n");
    assert_eq!(count, 1);
    assert!(items.is_empty(), "the returned diagnostics describe the *fixed* text, which has nothing left to report");
}

#[test]
fn test_fix_source_converges_across_multiple_passes() {
    let linter = Linter::with_default_rules();
    let config = LintConfig::default();
    let (fixed, count, _items) = fix_source("#H1\n##H2\nbody\n", &linter, &config).unwrap();
    assert_eq!(fixed, "# H1\n\n## H2\n\nbody\n");
    assert_eq!(count, 6, "2 (pass 1) + 3 (pass 2) + 1 (pass 3)");

    let (single_pass, _items) = fix_source_once("#H1\n##H2\nbody\n", &linter, &config).unwrap();
    assert_ne!(single_pass, fixed);
}

#[test]
fn test_fix_source_applies_a_custom_rule_fix() {
    let linter = Linter::with_default_rules();
    let config = config_with(
        vec![CustomRule {
            id: "no_todo".to_string(),
            query: r#"select(contains(to_text(), "TODO"))"#.to_string(),
            message: "found a TODO marker".to_string(),
            severity: Severity::Warning,
            fix: Some(r#"replace("TODO", "DONE")"#.to_string()),
        }],
        Vec::new(),
    );
    let (fixed, count, _items) = fix_source("TODO: fix this\n", &linter, &config).unwrap();
    assert_eq!(fixed, "DONE: fix this\n");
    assert_eq!(count, 1);
}

#[test]
fn test_fix_source_is_a_noop_when_nothing_is_fixable() {
    let linter = Linter::with_default_rules();
    let config = LintConfig::default();
    let (fixed, count, items) = fix_source("# Title\n", &linter, &config).unwrap();
    assert_eq!(fixed, "# Title\n");
    assert_eq!(count, 0);
    assert!(items.is_empty());
}

#[test]
fn test_fix_source_returned_diagnostics_describe_the_final_text_not_the_original() {
    let linter = Linter::with_default_rules();
    let config = config_with(Vec::new(), vec!["title".to_string()]);
    let (fixed, _count, items) = fix_source("#Title\n", &linter, &config).unwrap();
    assert_eq!(fixed, "# Title\n");
    assert!(items.iter().any(|item| item.rule_id() == "missing_front_matter_key"));
}

#[test]
fn test_compute_diff_shows_a_unified_diff() {
    let diff = compute_diff("test.md", "#Title\n", "# Title\n");
    assert!(diff.contains("--- a/test.md"));
    assert!(diff.contains("+++ b/test.md"));
    assert!(diff.contains("-#Title"));
    assert!(diff.contains("+# Title"));
}

#[test]
fn compute_diff_of_equal_texts_is_empty() {
    assert_eq!(compute_diff("test.md", "# Same\n", "# Same\n"), "");
}

#[test]
fn a_failing_custom_rule_fails_the_lint_with_its_message() {
    let linter = Linter::with_default_rules();
    let config = config_with(
        vec![CustomRule {
            id: "broken".to_string(),
            query: "this is not valid mq(((".to_string(),
            message: "never".to_string(),
            severity: Severity::Warning,
            fix: None,
        }],
        Vec::new(),
    );
    match lint_items("# Title\n", &linter, &config) {
        Err(e @ LintFailure::CustomRule(_)) => assert!(e.text().starts_with("custom rule `broken`: ")),
        _ => panic!("expected a custom rule failure"),
    }
}

#[test]
fn lint_content_keeps_warnings_at_warning_level() {
    let linter = Linter::with_default_rules();
    let config = LintConfig::default();
    let all = lint_items("#Title\n![](x.png)\n", &linter, &config).unwrap();
    let warn = lint_content("#Title\n![](x.png)\n", &linter, &config, Severity::Warning).unwrap();
    let expected: Vec<_> = all.iter().filter(|i| i.severity() >= Severity::Warning).map(|i| i.rule_id().to_string()).collect();
    let got: Vec<_> = warn.iter().map(|i| i.rule_id().to_string()).collect();
    assert_eq!(got, expected);
}

#[test]
fn test_process_file_diff_mode_does_not_write_the_file() {
    let linter = Linter::with_default_rules();
    let config = LintConfig::default();
    let outcome = process_text("test.md", "#Title\n", &linter, &config, Severity::Info, false, true).unwrap();
    assert!(outcome.rewrite.is_none(), "file must stay untouched");
    assert!(outcome.diff.is_some());
    assert!(outcome.fix_count.is_none());
}

#[test]
fn test_process_file_diff_mode_is_a_noop_when_nothing_is_fixable() {
    let linter = Linter::with_default_rules();
    let config = LintConfig::default();
    let outcome = process_text("test.md", "# Title\n", &linter, &config, Severity::Info, false, true).unwrap();
    assert!(outcome.diff.is_none());
}

#[test]
fn process_text_fix_mode_gives_the_text_to_write_back() {
    let linter = Linter::with_default_rules();
    let config = LintConfig::default();
    let outcome = process_text("test.md", "#Title\n", &linter, &config, Severity::Info, true, false).unwrap();
    assert_eq!(outcome.rewrite.as_deref(), Some("# Title\n"));
    assert_eq!(outcome.fix_count, Some(1));
    assert!(outcome.diagnostics.is_empty());
    let plain = process_text("test.md", "![](x.png)\n", &linter, &config, Severity::Error, false, false).unwrap();
    assert_eq!(plain.diagnostics.len(), 1);
    assert!(plain.rewrite.is_none());
}
