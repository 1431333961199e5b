use mq_content_lint::config::LintConfig;
use mq_content_lint::doc::parse_document;
use mq_content_lint::rules::check_rule;
use mq_content_lint::{Diagnostic, LintMessage, RuleId};

fn run(markdown: &str) -> Vec<Diagnostic> {
    let doc = parse_document(markdown).unwrap();
    check_rule(RuleId::NoMissingSpaceAtx, &doc, markdown, &LintConfig::default())
}
#[test]
fn no_diagnostics_for_a_proper_heading() {
    assert!(run("# Title\n").is_empty());
}

#[test]
fn flags_a_heading_missing_its_space() {
    let diagnostics = run("#Title\n");
    assert_eq!(diagnostics.len(), 1);
    assert_eq!(diagnostics[0].fix.as_ref().unwrap().replacement, " ");
}

#[test]
fn ignores_hashtag_like_text_inside_fenced_code() {
    assert!(run("```\n#not-a-heading\n```\n").is_empty());
}

#[test]
fn ignores_lines_with_more_than_six_hashes() {
    assert!(run("#######Text\n").is_empty());
}
