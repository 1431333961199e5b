use mq_content_lint::config::LintConfig;
use mq_content_lint::doc::parse_document;
use mq_content_lint::fix::apply_fixes;
use mq_content_lint::rules::check_rule;
use mq_content_lint::{Diagnostic, RuleId};

fn run(markdown: &str) -> Vec<Diagnostic> {
    let doc = parse_document(markdown).unwrap();
    check_rule(RuleId::SingleTrailingNewline, &doc, markdown, &LintConfig::default())
}

fn fixed(markdown: &str) -> String {
    let fixes: Vec<_> = run(markdown).into_iter().filter_map(|d| d.fix).collect();
    apply_fixes(markdown, &fixes)
}

#[test]
fn exactly_one_trailing_newline_is_fine() {
    assert!(run("# Title\n\ntext\n").is_empty());
}

#[test]
fn an_empty_file_is_fine() {
    assert!(run("").is_empty());
}

#[test]
fn a_missing_newline_is_flagged_and_added() {
    assert_eq!(run("# Title\n\ntext").len(), 1);
    assert_eq!(fixed("# Title\n\ntext"), "# Title\n\ntext\n");
}

#[test]
fn extra_trailing_newlines_are_flagged_and_removed() {
    assert_eq!(run("# Title\n\n\n").len(), 1);
    assert_eq!(fixed("# Title\n\n\n"), "# Title\n");
    assert_eq!(fixed("text\n\n\n\n"), "text\n");
}
