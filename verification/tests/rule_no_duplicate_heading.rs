use mq_content_lint::config::LintConfig;
use mq_content_lint::doc::parse_document;
use mq_content_lint::rules::check_rule;
use mq_content_lint::{Diagnostic, LintMessage, RuleId};

fn run(markdown: &str) -> Vec<Diagnostic> {
    let doc = parse_document(markdown).unwrap();
    check_rule(RuleId::NoDuplicateHeading, &doc, markdown, &LintConfig::default())
}
#[test]
fn no_diagnostics_for_distinct_headings() {
    assert!(run("# One\n\n## Two\n").is_empty());
}

#[test]
fn flags_a_duplicate_heading() {
    let diagnostics = run("# Overview\n\n## Details\n\n## Overview\n");
    assert_eq!(diagnostics.len(), 1);
    assert_eq!(
        diagnostics[0].message,
        LintMessage::NoDuplicateHeading {
            text: "Overview".to_string()
        }
    );
}
