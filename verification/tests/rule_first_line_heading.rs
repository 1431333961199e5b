use mq_content_lint::config::LintConfig;
use mq_content_lint::doc::parse_document;
use mq_content_lint::rules::check_rule;
use mq_content_lint::{Diagnostic, LintMessage, RuleId};

fn run(markdown: &str) -> Vec<Diagnostic> {
    let doc = parse_document(markdown).unwrap();
    check_rule(RuleId::FirstLineHeading, &doc, markdown, &LintConfig::default())
}
#[test]
fn no_diagnostics_when_document_starts_with_h1() {
    assert!(run("# Title\n\nBody\n").is_empty());
}

#[test]
fn front_matter_is_skipped_before_checking() {
    assert!(run("---\ntitle: Hello\n---\n\n# Title\n").is_empty());
}

#[test]
fn flags_a_document_that_does_not_start_with_h1() {
    let diagnostics = run("Just a paragraph.\n");
    assert_eq!(diagnostics.len(), 1);
}

#[test]
fn flags_a_document_starting_with_h2() {
    assert_eq!(run("## Not top level\n").len(), 1);
}
