use mq_content_lint::config::{FileConfig, LintConfig, OptionValue, RuleEntry};
use mq_content_lint::doc::parse_document;
use mq_content_lint::rules::check_rule;
use mq_content_lint::{Diagnostic, LintMessage, Range, RuleId};

fn check(id: RuleId, markdown: &str, config: &LintConfig) -> Vec<Diagnostic> {
    let doc = parse_document(markdown).unwrap();
    check_rule(id, &doc, markdown, config)
}

fn options(rule: &str, entries: Vec<(&str, OptionValue)>) -> LintConfig {
    LintConfig::from_file_config(FileConfig {
        rules: vec![(
            rule.to_string(),
            RuleEntry::Table(entries.into_iter().map(|(k, v)| (k.to_string(), v)).collect()),
        )],
        required_keys: Vec::new(),
        custom_rules: Vec::new(),
        ignore: Vec::new(),
    })
    .unwrap()
}

fn emphasis(markdown: &str) -> Vec<Diagnostic> {
    check(RuleId::EmphasisStyle, markdown, &LintConfig::default())
}

fn code(markdown: &str) -> Vec<Diagnostic> {
    check(RuleId::NoSpaceInCode, markdown, &LintConfig::default())
}

fn links(markdown: &str) -> Vec<Diagnostic> {
    check(RuleId::NoSpaceInLinks, markdown, &LintConfig::default())
}

fn autolink_off() -> LintConfig {
    options("link_image_style", vec![("autolink", OptionValue::Bool(false))])
}

#[test]
fn no_diagnostics_for_consistent_asterisks() {
    assert!(emphasis("*one* and *two*\n").is_empty());
}

#[test]
fn flags_and_fixes_an_inconsistent_marker() {
    let diagnostics = emphasis("*one* and _two_\n");
    assert_eq!(diagnostics.len(), 1);
    assert_eq!(diagnostics[0].fix.as_ref().unwrap().replacement, "*two*");
}

#[test]
fn flags_and_fixes_an_inconsistent_marker_after_multi_byte_text() {
    let diagnostics = emphasis("従うように *one* and _two_\n");
    assert_eq!(diagnostics.len(), 1);
    assert_eq!(diagnostics[0].fix.as_ref().unwrap().replacement, "*two*");
}

#[test]
fn emphasis_style_follows_the_configured_marker() {
    let config = options("emphasis_style", vec![("style", OptionValue::Str("underscore".to_string()))]);
    let diagnostics = check(RuleId::EmphasisStyle, "*one*\n", &config);
    assert_eq!(diagnostics.len(), 1);
    assert_eq!(diagnostics[0].message, LintMessage::EmphasisStyle { expected: '_', found: '*' });
    assert_eq!(diagnostics[0].range, Some(Range { start_line: 1, start_column: 1, end_line: 1, end_column: 6 }));
    assert_eq!(diagnostics[0].fix.as_ref().unwrap().replacement, "_one_");
}

#[test]
fn no_diagnostics_for_clean_code_span() {
    assert!(code("`text`\n").is_empty());
}

#[test]
fn flags_and_fixes_extra_spaces() {
    let diagnostics = code("`  text  `\n");
    assert_eq!(diagnostics.len(), 1);
    assert_eq!(diagnostics[0].fix.as_ref().unwrap().replacement, "text");
}

#[test]
fn no_diagnostics_for_a_clean_multi_byte_code_span() {
    assert!(code("`従うように`\n").is_empty());
}

#[test]
fn flags_and_fixes_extra_spaces_around_multi_byte_content() {
    let diagnostics = code("` 従うように `\n");
    assert_eq!(diagnostics.len(), 1);
    assert_eq!(diagnostics[0].fix.as_ref().unwrap().replacement, "従うように");
}

#[test]
fn code_span_fix_range_sits_inside_the_backticks() {
    let diagnostics = code("a `` x `` b\n");
    assert_eq!(diagnostics.len(), 1);
    let fix = diagnostics[0].fix.as_ref().unwrap();
    assert_eq!(fix.range, Range { start_line: 1, start_column: 5, end_line: 1, end_column: 8 });
    assert_eq!(fix.replacement, "x");
}

#[test]
fn no_diagnostics_for_clean_link_text() {
    assert!(links("[text](https://example.com)\n").is_empty());
}

#[test]
fn flags_and_fixes_spaces_inside_brackets() {
    let diagnostics = links("[ text ](https://example.com)\n");
    assert_eq!(diagnostics.len(), 1);
    assert_eq!(diagnostics[0].fix.as_ref().unwrap().replacement, "text");
    assert_eq!(
        diagnostics[0].fix.as_ref().unwrap().range,
        Range { start_line: 1, start_column: 2, end_line: 1, end_column: 8 }
    );
}

#[test]
fn no_op_with_no_config() {
    assert!(check(RuleId::LinkImageStyle, "[text](url)\n", &LintConfig::default()).is_empty());
}

#[test]
fn flags_a_disallowed_style() {
    let diagnostics = check(RuleId::LinkImageStyle, "<https://example.com>\n", &autolink_off());
    assert_eq!(diagnostics.len(), 1);
    assert_eq!(
        diagnostics[0].message,
        LintMessage::LinkImageStyle {
            expected: "inline/full/collapsed/shortcut".to_string(),
            found: "autolink".to_string(),
        }
    );
}

#[test]
fn allowed_styles_are_not_flagged() {
    assert!(check(RuleId::LinkImageStyle, "[text](https://example.com)\n", &autolink_off()).is_empty());
}

#[test]
fn detects_a_disallowed_style_after_multi_byte_text() {
    let diagnostics = check(RuleId::LinkImageStyle, "従うように <https://example.com>\n", &autolink_off());
    assert_eq!(diagnostics.len(), 1);
    assert_eq!(
        diagnostics[0].message,
        LintMessage::LinkImageStyle {
            expected: "inline/full/collapsed/shortcut".to_string(),
            found: "autolink".to_string(),
        }
    );
}

#[test]
fn link_image_style_names_every_allowed_style() {
    let config = options(
        "link_image_style",
        vec![("inline", OptionValue::Bool(false)), ("shortcut", OptionValue::Bool(false))],
    );
    let diagnostics = check(RuleId::LinkImageStyle, "[a](b) and [c][d]\n\n[d]: e\n", &config);
    assert_eq!(diagnostics.len(), 1);
    assert_eq!(
        diagnostics[0].message,
        LintMessage::LinkImageStyle { expected: "autolink/full/collapsed".to_string(), found: "inline".to_string() }
    );
}

fn strong(markdown: &str) -> Vec<Diagnostic> {
    check(RuleId::StrongStyle, markdown, &LintConfig::default())
}

#[test]
fn consistent_strong_markers_are_fine() {
    assert!(strong("**one** and **two**\n").is_empty());
}

#[test]
fn a_strong_span_with_the_other_marker_is_flagged_and_fixed() {
    let diagnostics = strong("**one** and __two__\n");
    assert_eq!(diagnostics.len(), 1);
    assert_eq!(diagnostics[0].message.text(), "strong marker `__`, expected `**` (for consistency)");
    assert_eq!(diagnostics[0].fix.as_ref().unwrap().replacement, "**two**");
}

#[test]
fn the_style_option_names_the_strong_marker() {
    let config = options("strong_style", vec![("style", OptionValue::Str("underscore".to_string()))]);
    let diagnostics = check(RuleId::StrongStyle, "**one**\n", &config);
    assert_eq!(diagnostics.len(), 1);
    assert_eq!(diagnostics[0].fix.as_ref().unwrap().replacement, "__one__");
}
