use mq_content_lint::config::LintConfig;
use mq_content_lint::doc::parse_document;
use mq_content_lint::rules::check_rule;
use mq_content_lint::{Diagnostic, LintMessage, RuleId};

fn run(markdown: &str) -> Vec<Diagnostic> {
    let doc = parse_document(markdown).unwrap();
    check_rule(RuleId::NoTrailingSpaces, &doc, markdown, &LintConfig::default())
}
#[test]
fn no_diagnostics_for_clean_lines() {
    assert!(run("Hello\nWorld\n").is_empty());
}

#[test]
fn allows_exactly_two_trailing_spaces() {
    assert!(run("Hello  \nWorld\n").is_empty());
}

#[test]
fn flags_and_fixes_a_single_trailing_space() {
    let diagnostics = run("Hello \nWorld\n");
    assert_eq!(diagnostics.len(), 1);
    assert_eq!(diagnostics[0].fix.as_ref().unwrap().replacement, "");
}

#[test]
fn flags_more_than_two_trailing_spaces() {
    assert_eq!(run("Hello   \n").len(), 1);
}
