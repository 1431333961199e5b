use mq_content_lint::config::LintConfig;
use mq_content_lint::doc::parse_document;
use mq_content_lint::rules::check_rule;
use mq_content_lint::{Diagnostic, LintMessage, RuleId};

fn run(markdown: &str) -> Vec<Diagnostic> {
    let doc = parse_document(markdown).unwrap();
    check_rule(RuleId::ListIndent, &doc, markdown, &LintConfig::default())
}
#[test]
fn no_diagnostics_for_consistent_indentation() {
    assert!(run("- one\n- two\n").is_empty());
}

#[test]
fn flags_inconsistent_sibling_indentation() {
    let diagnostics = run("- one\n  - nested\n   - also nested but off by one\n");
    assert_eq!(diagnostics.len(), 1);
}
