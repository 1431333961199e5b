use mq_content_lint::config::LintConfig;
use mq_content_lint::doc::parse_document;
use mq_content_lint::rules::check_rule;
use mq_content_lint::{Diagnostic, LintMessage, RuleId};

fn run(markdown: &str) -> Vec<Diagnostic> {
    let doc = parse_document(markdown).unwrap();
    check_rule(RuleId::CodeBlockStyle, &doc, markdown, &LintConfig::default())
}
#[test]
fn no_diagnostics_for_all_fenced() {
    assert!(run("```\none\n```\n\n```\ntwo\n```\n").is_empty());
}

#[test]
fn flags_a_mixed_style() {
    let diagnostics = run("```\nfenced\n```\n\n    indented\n");
    assert_eq!(diagnostics.len(), 1);
    assert_eq!(
        diagnostics[0].message,
        LintMessage::CodeBlockStyle {
            expected: "fenced".to_string()
        }
    );
}
