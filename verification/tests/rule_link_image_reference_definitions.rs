use mq_content_lint::config::LintConfig;
use mq_content_lint::doc::parse_document;
use mq_content_lint::rules::check_rule;
use mq_content_lint::{Diagnostic, RuleId};

fn run(markdown: &str) -> Vec<Diagnostic> {
    let doc = parse_document(markdown).unwrap();
    check_rule(RuleId::LinkImageReferenceDefinitions, &doc, markdown, &LintConfig::default())
}

#[test]
fn no_diagnostics_when_definition_is_used() {
    assert!(run("[text][ref]\n\n[ref]: https://example.com\n").is_empty());
}

#[test]
fn flags_and_fixes_an_unused_definition() {
    let source = "Body text.\n\n[unused]: https://example.com\n";
    let diagnostics = run(source);
    assert_eq!(diagnostics.len(), 1);
    let fixed = mq_content_lint::fix::apply_fixes(source, &[diagnostics[0].fix.clone().unwrap()]);
    assert_eq!(fixed, "Body text.\n\n");
}

#[test]
fn references_match_definitions_ignoring_case() {
    assert!(run("[text][REF]\n\n[ref]: https://example.com\n").is_empty());
}
