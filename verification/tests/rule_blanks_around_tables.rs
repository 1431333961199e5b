use mq_content_lint::config::LintConfig;
use mq_content_lint::doc::parse_document;
use mq_content_lint::rules::check_rule;
use mq_content_lint::{Diagnostic, LintMessage, RuleId};

fn run(markdown: &str) -> Vec<Diagnostic> {
    let doc = parse_document(markdown).unwrap();
    check_rule(RuleId::BlanksAroundTables, &doc, markdown, &LintConfig::default())
}
#[test]
fn blanks_around_tables_no_diagnostics_when_properly_surrounded() {
    assert!(run("Intro\n\n| A |\n|---|\n| 1 |\n\nBody\n").is_empty());
}

#[test]
fn flags_missing_blank_lines_around_the_table() {
    // A heading unambiguously ends the table (unlike plain text, which GFM treats as
    // another lazily-continued table row).
    let diagnostics = run("Intro\n| A |\n|---|\n| 1 |\n# Heading\n");
    assert_eq!(diagnostics.len(), 2);
}
