use mq_content_lint::config::LintConfig;
use mq_content_lint::doc::parse_document;
use mq_content_lint::rules::check_rule;
use mq_content_lint::{Diagnostic, LintMessage, RuleId};

fn run(markdown: &str) -> Vec<Diagnostic> {
    let doc = parse_document(markdown).unwrap();
    check_rule(RuleId::NoMultipleBlanks, &doc, markdown, &LintConfig::default())
}
#[test]
fn no_diagnostics_for_single_blank_lines() {
    assert!(run("One\n\nTwo\n").is_empty());
}

#[test]
fn flags_and_fixes_multiple_blank_lines() {
    let diagnostics = run("One\n\n\n\nTwo\n");
    assert_eq!(diagnostics.len(), 1);
    assert_eq!(diagnostics[0].message, LintMessage::NoMultipleBlanks { count: 3 });
    let fixed = mq_content_lint::fix::apply_fixes("One\n\n\n\nTwo\n", &[diagnostics[0].fix.clone().unwrap()]);
    assert_eq!(fixed, "One\n\nTwo\n");
}
