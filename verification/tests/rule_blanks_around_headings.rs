use mq_content_lint::config::LintConfig;
use mq_content_lint::doc::parse_document;
use mq_content_lint::rules::check_rule;
use mq_content_lint::{Diagnostic, LintMessage, RuleId};

fn run(markdown: &str) -> Vec<Diagnostic> {
    let doc = parse_document(markdown).unwrap();
    check_rule(RuleId::BlanksAroundHeadings, &doc, markdown, &LintConfig::default())
}
#[test]
fn blanks_around_headings_no_diagnostics_when_properly_surrounded() {
    assert!(run("Intro\n\n# Title\n\nBody\n").is_empty());
}

#[test]
fn no_diagnostics_at_start_and_end_of_file() {
    assert!(run("# Title\n").is_empty());
}

#[test]
fn flags_missing_blank_line_above_and_below() {
    let diagnostics = run("Intro\n# Title\nBody\n");
    assert_eq!(diagnostics.len(), 2);
    assert!(matches!(
        diagnostics[0].message,
        LintMessage::BlanksAroundHeadings { above: true }
    ));
    assert!(matches!(
        diagnostics[1].message,
        LintMessage::BlanksAroundHeadings { above: false }
    ));
}
