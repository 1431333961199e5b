use mq_content_lint::config::LintConfig;
use mq_content_lint::doc::parse_document;
use mq_content_lint::rules::check_rule;
use mq_content_lint::{Diagnostic, LintMessage, RuleId};

fn run(markdown: &str) -> Vec<Diagnostic> {
    let doc = parse_document(markdown).unwrap();
    check_rule(RuleId::CodeFenceStyle, &doc, markdown, &LintConfig::default())
}
#[test]
fn no_diagnostics_for_consistent_backticks() {
    assert!(run("```\none\n```\n\n```\ntwo\n```\n").is_empty());
}

#[test]
fn flags_an_inconsistent_fence_character() {
    let diagnostics = run("```\none\n```\n\n~~~\ntwo\n~~~\n");
    assert_eq!(diagnostics.len(), 1);
    assert_eq!(diagnostics[0].message, LintMessage::CodeFenceStyle { expected: '`' });
}
