use mq_content_lint::config::LintConfig;
use mq_content_lint::doc::parse_document;
use mq_content_lint::rules::check_rule;
use mq_content_lint::{Diagnostic, LintMessage, RuleId};

fn run(markdown: &str) -> Vec<Diagnostic> {
    let doc = parse_document(markdown).unwrap();
    check_rule(RuleId::NoHardTabs, &doc, markdown, &LintConfig::default())
}
#[test]
fn no_diagnostics_without_tabs() {
    assert!(run("Hello World\n").is_empty());
}

#[test]
fn flags_and_fixes_a_tab() {
    let diagnostics = run("Hello\tWorld\n");
    assert_eq!(diagnostics.len(), 1);
    assert_eq!(diagnostics[0].fix.as_ref().unwrap().replacement, "    ");
}
