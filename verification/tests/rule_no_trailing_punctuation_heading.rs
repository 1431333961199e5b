use mq_content_lint::config::LintConfig;
use mq_content_lint::doc::parse_document;
use mq_content_lint::rules::check_rule;
use mq_content_lint::{Diagnostic, LintMessage, RuleId};

fn run(markdown: &str) -> Vec<Diagnostic> {
    let doc = parse_document(markdown).unwrap();
    check_rule(RuleId::NoTrailingPunctuationHeading, &doc, markdown, &LintConfig::default())
}
#[test]
fn no_diagnostics_for_a_clean_heading() {
    assert!(run("# Title\n").is_empty());
}

#[test]
fn question_marks_are_allowed_by_default() {
    assert!(run("# What now?\n").is_empty());
}

#[test]
fn flags_and_fixes_trailing_period() {
    let diagnostics = run("# Title.\n");
    assert_eq!(diagnostics.len(), 1);
    assert_eq!(diagnostics[0].fix.as_ref().unwrap().replacement, "");
}
