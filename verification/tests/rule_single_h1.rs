use mq_content_lint::config::LintConfig;
use mq_content_lint::doc::parse_document;
use mq_content_lint::rules::check_rule;
use mq_content_lint::{Diagnostic, LintMessage, RuleId};

fn run(markdown: &str) -> Vec<Diagnostic> {
    let doc = parse_document(markdown).unwrap();
    check_rule(RuleId::SingleH1, &doc, markdown, &LintConfig::default())
}

#[test]
fn one_h1_is_fine() {
    assert!(run("# Title\n\n## Part\n\n## Other\n").is_empty());
}

#[test]
fn every_h1_after_the_first_is_flagged() {
    let diagnostics = run("# One\n\ntext\n\n# Two\n\n# Three\n");
    assert_eq!(diagnostics.len(), 2);
    assert_eq!(diagnostics[0].message, LintMessage::SingleH1);
    assert_eq!(diagnostics[0].range.unwrap().start_line, 5);
    assert_eq!(diagnostics[1].range.unwrap().start_line, 7);
    assert!(diagnostics[0].fix.is_none());
}

#[test]
fn a_document_without_h1_is_fine() {
    assert!(run("## Part\n\ntext\n").is_empty());
}
