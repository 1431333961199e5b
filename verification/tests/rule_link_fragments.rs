use mq_content_lint::config::LintConfig;
use mq_content_lint::doc::parse_document;
use mq_content_lint::rules::check_rule;
use mq_content_lint::{Diagnostic, LintMessage, RuleId};

fn run(markdown: &str) -> Vec<Diagnostic> {
    let doc = parse_document(markdown).unwrap();
    check_rule(RuleId::LinkFragments, &doc, markdown, &LintConfig::default())
}

#[test]
fn no_diagnostics_for_a_matching_fragment() {
    assert!(run("# Getting Started\n\n[link](#getting-started)\n").is_empty());
}

#[test]
fn flags_a_fragment_with_no_matching_heading() {
    assert_eq!(run("# Title\n\n[link](#nope)\n").len(), 1);
}

#[test]
fn does_not_flag_non_fragment_links() {
    assert!(run("[link](https://example.com)\n").is_empty());
}

#[test]
fn a_repeated_heading_gets_a_numbered_anchor() {
    let source = "# Intro\n\n# Intro\n\n[a](#intro) [b](#intro-1) [c](#intro-2)\n";
    let diagnostics = run(source);
    assert_eq!(diagnostics.len(), 1);
    assert_eq!(diagnostics[0].message, LintMessage::LinkFragments { fragment: "intro-2".to_string() });
}
