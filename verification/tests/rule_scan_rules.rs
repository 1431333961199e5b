use mq_content_lint::config::LintConfig;
use mq_content_lint::doc::parse_document;
use mq_content_lint::rules::check_rule;
use mq_content_lint::{Diagnostic, LintMessage, Range, RuleId};

fn check(id: RuleId, markdown: &str) -> Vec<Diagnostic> {
    let doc = parse_document(markdown).unwrap();
    check_rule(id, &doc, markdown, &LintConfig::default())
}

#[test]
fn no_diagnostics_for_clean_emphasis() {
    assert!(check(RuleId::NoSpaceInEmphasis, "*text*\n").is_empty());
}

#[test]
fn flags_and_fixes_spaces_inside_markers() {
    let diagnostics = check(RuleId::NoSpaceInEmphasis, "Some * text * here.\n");
    assert_eq!(diagnostics.len(), 1);
    assert_eq!(diagnostics[0].fix.as_ref().unwrap().replacement, "*text*");
    assert_eq!(diagnostics[0].range, Some(Range { start_line: 1, start_column: 6, end_line: 1, end_column: 14 }));
}

#[test]
fn no_space_in_emphasis_ignores_fenced_code_blocks() {
    assert!(check(RuleId::NoSpaceInEmphasis, "```\n* text *\n```\n").is_empty());
}

#[test]
fn spaced_markers_around_no_letters_are_left_alone() {
    assert!(check(RuleId::NoSpaceInEmphasis, "a * - * b\n").is_empty());
}

#[test]
fn no_diagnostics_for_a_correct_link() {
    assert!(check(RuleId::NoReversedLinks, "See [the site](https://example.com).\n").is_empty());
}

#[test]
fn flags_and_fixes_a_reversed_link() {
    let diagnostics = check(RuleId::NoReversedLinks, "See (the site)[https://example.com].\n");
    assert_eq!(diagnostics.len(), 1);
    assert_eq!(diagnostics[0].fix.as_ref().unwrap().replacement, "[the site](https://example.com)");
    assert_eq!(
        diagnostics[0].message,
        LintMessage::NoReversedLinks { text: "(the site)[https://example.com]".to_string() }
    );
}

#[test]
fn ignores_plain_parenthetical_text() {
    assert!(check(RuleId::NoReversedLinks, "This (is just text) with brackets [elsewhere].\n").is_empty());
}

#[test]
fn no_reversed_links_ignores_fenced_code_blocks() {
    assert!(check(RuleId::NoReversedLinks, "```\n(text)[url]\n```\n").is_empty());
}

#[test]
fn no_diagnostics_for_a_proper_link() {
    assert!(check(RuleId::NoBareUrls, "See [the site](https://example.com) for more.\n").is_empty());
}

#[test]
fn no_diagnostics_for_an_autolink() {
    assert!(check(RuleId::NoBareUrls, "See <https://example.com> for more.\n").is_empty());
}

#[test]
fn flags_and_fixes_a_bare_url() {
    let diagnostics = check(RuleId::NoBareUrls, "See https://example.com for more.\n");
    assert_eq!(diagnostics.len(), 1);
    assert_eq!(diagnostics[0].fix.as_ref().unwrap().replacement, "<https://example.com>");
    assert_eq!(diagnostics[0].message, LintMessage::NoBareUrls { url: "https://example.com".to_string() });
    assert_eq!(diagnostics[0].range, Some(Range { start_line: 1, start_column: 5, end_line: 1, end_column: 24 }));
}

#[test]
fn no_bare_urls_ignores_fenced_code_blocks() {
    assert!(check(RuleId::NoBareUrls, "```\nhttps://example.com\n```\n").is_empty());
}

#[test]
fn a_url_ends_at_a_closing_bracket_or_space() {
    let diagnostics = check(RuleId::NoBareUrls, "x http://a.b/c) y https://d.e\n");
    assert_eq!(diagnostics.len(), 2);
    assert_eq!(diagnostics[0].message, LintMessage::NoBareUrls { url: "http://a.b/c".to_string() });
    assert_eq!(diagnostics[1].message, LintMessage::NoBareUrls { url: "https://d.e".to_string() });
}
