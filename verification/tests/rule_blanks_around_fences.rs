use mq_content_lint::config::LintConfig;
use mq_content_lint::doc::parse_document;
use mq_content_lint::rules::check_rule;
use mq_content_lint::{Diagnostic, LintMessage, RuleId};

fn run(markdown: &str) -> Vec<Diagnostic> {
    let doc = parse_document(markdown).unwrap();
    check_rule(RuleId::BlanksAroundFences, &doc, markdown, &LintConfig::default())
}
#[test]
fn blanks_around_fences_no_diagnostics_when_properly_surrounded() {
    assert!(run("Intro\n\n```\ncode\n```\n\nBody\n").is_empty());
}

#[test]
fn flags_missing_blank_lines() {
    let diagnostics = run("Intro\n```\ncode\n```\nBody\n");
    assert_eq!(diagnostics.len(), 2);
}
