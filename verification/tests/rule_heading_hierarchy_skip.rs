use mq_content_lint::config::LintConfig;
use mq_content_lint::doc::parse_document;
use mq_content_lint::rules::check_rule;
use mq_content_lint::{Diagnostic, LintMessage, RuleId};

fn run(markdown: &str) -> Vec<Diagnostic> {
    let doc = parse_document(markdown).unwrap();
    check_rule(RuleId::HeadingHierarchySkip, &doc, markdown, &LintConfig::default())
}
#[test]
fn no_diagnostics_for_sequential_headings() {
    assert!(run("# One\n\n## Two\n\n### Three\n").is_empty());
}

#[test]
fn no_diagnostics_for_decreasing_depth() {
    assert!(run("# One\n\n## Two\n\n# Three\n").is_empty());
}

#[test]
fn no_diagnostics_when_document_starts_below_h1() {
    assert!(run("## Two\n\n### Three\n").is_empty());
}

#[test]
fn flags_a_skipped_level() {
    let diagnostics = run("# One\n\n### Three\n");
    assert_eq!(diagnostics.len(), 1);
    assert_eq!(
        diagnostics[0].message,
        LintMessage::HeadingHierarchySkip { from: 1, to: 3 }
    );
    assert_eq!(diagnostics[0].range.unwrap().start_line, 3);
}

#[test]
fn flags_each_skip_independently() {
    let diagnostics = run("# One\n\n### Three\n\n##### Five\n");
    assert_eq!(diagnostics.len(), 2);
    assert_eq!(
        diagnostics[1].message,
        LintMessage::HeadingHierarchySkip { from: 3, to: 5 }
    );
}

#[test]
fn finds_headings_nested_inside_a_blockquote() {
    let diagnostics = run("# One\n\n> ### Nested\n");
    assert_eq!(diagnostics.len(), 1);
}
