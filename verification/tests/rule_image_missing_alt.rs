use mq_content_lint::config::LintConfig;
use mq_content_lint::doc::parse_document;
use mq_content_lint::rules::check_rule;
use mq_content_lint::{Diagnostic, LintMessage, RuleId};

fn run(markdown: &str) -> Vec<Diagnostic> {
    let doc = parse_document(markdown).unwrap();
    check_rule(RuleId::ImageMissingAlt, &doc, markdown, &LintConfig::default())
}
#[test]
fn no_diagnostics_when_alt_text_is_present() {
    assert!(run("![A cute cat](cat.png)\n").is_empty());
}

#[test]
fn flags_empty_alt_text() {
    let diagnostics = run("![](missing-alt.png)\n");
    assert_eq!(diagnostics.len(), 1);
    assert_eq!(
        diagnostics[0].message,
        LintMessage::ImageMissingAlt {
            url: "missing-alt.png".to_string()
        }
    );
}

#[test]
fn flags_whitespace_only_alt_text() {
    assert_eq!(run("![ ](missing-alt.png)\n").len(), 1);
}

#[test]
fn finds_images_nested_in_links_and_tables() {
    assert_eq!(run("[![]()](https://example.com)\n").len(), 1);
    assert_eq!(run("| A |\n|---|\n| ![]() |\n").len(), 1);
}

#[test]
fn checks_image_references_too() {
    let diagnostics = run("![][ref]\n\n[ref]: img.png\n");
    assert_eq!(diagnostics.len(), 1);
}
