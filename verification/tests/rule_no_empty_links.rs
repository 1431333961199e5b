use mq_content_lint::config::LintConfig;
use mq_content_lint::doc::parse_document;
use mq_content_lint::rules::check_rule;
use mq_content_lint::{Diagnostic, LintMessage, RuleId};

fn run(markdown: &str) -> Vec<Diagnostic> {
    let doc = parse_document(markdown).unwrap();
    check_rule(RuleId::NoEmptyLinks, &doc, markdown, &LintConfig::default())
}
#[test]
fn no_diagnostics_for_a_real_link() {
    assert!(run("[text](https://example.com)\n").is_empty());
}

#[test]
fn flags_an_empty_url() {
    assert_eq!(run("[text]()\n").len(), 1);
}

#[test]
fn flags_a_hash_placeholder() {
    assert_eq!(run("[text](#)\n").len(), 1);
}
