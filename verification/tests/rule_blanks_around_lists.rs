use mq_content_lint::config::LintConfig;
use mq_content_lint::doc::parse_document;
use mq_content_lint::rules::check_rule;
use mq_content_lint::{Diagnostic, LintMessage, RuleId};

fn run(markdown: &str) -> Vec<Diagnostic> {
    let doc = parse_document(markdown).unwrap();
    check_rule(RuleId::BlanksAroundLists, &doc, markdown, &LintConfig::default())
}
#[test]
fn blanks_around_lists_no_diagnostics_when_properly_surrounded() {
    assert!(run("Intro\n\n- one\n- two\n\nBody\n").is_empty());
}

#[test]
fn flags_missing_blank_lines_around_the_whole_list() {
    // A heading unambiguously ends the list (unlike plain text, which CommonMark treats as
    // a lazy continuation of the last item's paragraph).
    let diagnostics = run("Intro\n- one\n- two\n# Heading\n");
    assert_eq!(diagnostics.len(), 2);
}

#[test]
fn does_not_flag_between_sibling_items() {
    assert!(run("\n- one\n- two\n- three\n").is_empty());
}
