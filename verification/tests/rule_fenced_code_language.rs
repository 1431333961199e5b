use mq_content_lint::config::LintConfig;
use mq_content_lint::doc::parse_document;
use mq_content_lint::rules::check_rule;
use mq_content_lint::{Diagnostic, LintMessage, RuleId};

fn run(markdown: &str) -> Vec<Diagnostic> {
    let doc = parse_document(markdown).unwrap();
    check_rule(RuleId::FencedCodeLanguage, &doc, markdown, &LintConfig::default())
}
#[test]
fn no_diagnostics_when_language_is_specified() {
    assert!(run("```rust\nfn main() {}\n```\n").is_empty());
}

#[test]
fn flags_a_fenced_block_with_no_language() {
    assert_eq!(run("```\nsome code\n```\n").len(), 1);
}

#[test]
fn does_not_flag_indented_code_blocks() {
    assert!(run("    indented code\n").is_empty());
}
