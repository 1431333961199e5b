use mq_content_lint::config::LintConfig;
use mq_content_lint::doc::parse_document;
use mq_content_lint::rules::check_rule;
use mq_content_lint::{Diagnostic, LintMessage, RuleId};

fn run(markdown: &str) -> Vec<Diagnostic> {
    let doc = parse_document(markdown).unwrap();
    check_rule(RuleId::NoBlanksBlockquote, &doc, markdown, &LintConfig::default())
}
#[test]
fn no_diagnostics_for_a_clean_blockquote() {
    assert!(run("> line one\n> line two\n").is_empty());
}

#[test]
fn flags_a_blank_line_between_quote_lines() {
    let diagnostics = run("> line one\n\n> line two\n");
    assert_eq!(diagnostics.len(), 1);
}

#[test]
fn no_diagnostics_when_blockquote_simply_ends() {
    assert!(run("> quoted\n\nParagraph after.\n").is_empty());
}
