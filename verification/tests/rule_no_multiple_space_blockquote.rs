use mq_content_lint::config::LintConfig;
use mq_content_lint::doc::parse_document;
use mq_content_lint::rules::check_rule;
use mq_content_lint::{Diagnostic, LintMessage, RuleId};

fn run(markdown: &str) -> Vec<Diagnostic> {
    let doc = parse_document(markdown).unwrap();
    check_rule(RuleId::NoMultipleSpaceBlockquote, &doc, markdown, &LintConfig::default())
}
#[test]
fn no_multiple_space_blockquote_no_diagnostics_for_single_space() {
    assert!(run("> quote\n").is_empty());
}

#[test]
fn no_multiple_space_blockquote_flags_and_fixes_multiple_spaces() {
    let diagnostics = run(">   quote\n");
    assert_eq!(diagnostics.len(), 1);
    assert_eq!(diagnostics[0].fix.as_ref().unwrap().replacement, " ");
}
