use mq_content_lint::config::LintConfig;
use mq_content_lint::doc::parse_document;
use mq_content_lint::rules::check_rule;
use mq_content_lint::{Diagnostic, LintMessage, RuleId};

fn run(markdown: &str) -> Vec<Diagnostic> {
    let doc = parse_document(markdown).unwrap();
    check_rule(RuleId::HeadingStartLeft, &doc, markdown, &LintConfig::default())
}
#[test]
fn no_diagnostics_for_left_aligned_heading() {
    assert!(run("# Title\n").is_empty());
}

#[test]
fn flags_and_fixes_indented_heading() {
    let diagnostics = run("   # Title\n");
    assert_eq!(diagnostics.len(), 1);
    assert_eq!(diagnostics[0].fix.as_ref().unwrap().replacement, "");
}
