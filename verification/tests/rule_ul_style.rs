use mq_content_lint::config::{FileConfig, LintConfig, OptionValue, RuleEntry};
use mq_content_lint::doc::parse_document;
use mq_content_lint::rules::check_rule;
use mq_content_lint::{Diagnostic, LintMessage, RuleId};

fn check(markdown: &str, config: &LintConfig) -> Vec<Diagnostic> {
    let doc = parse_document(markdown).unwrap();
    check_rule(RuleId::UlStyle, &doc, markdown, config)
}

fn styled(style: &str) -> LintConfig {
    LintConfig::from_file_config(FileConfig {
        rules: vec![(
            "ul_style".to_string(),
            RuleEntry::Table(vec![("style".to_string(), OptionValue::Str(style.to_string()))]),
        )],
        required_keys: Vec::new(),
        custom_rules: Vec::new(),
        ignore: Vec::new(),
    })
    .unwrap()
}

#[test]
fn consistent_bullets_are_fine() {
    assert!(check("- one\n- two\n- three\n", &LintConfig::default()).is_empty());
}

#[test]
fn a_different_bullet_is_flagged_and_fixed() {
    let diagnostics = check("- one\n* two\n- three\n", &LintConfig::default());
    assert_eq!(diagnostics.len(), 1);
    assert_eq!(diagnostics[0].message, LintMessage::UlStyle { expected: '-', found: '*' });
    let fix = diagnostics[0].fix.as_ref().unwrap();
    assert_eq!(fix.replacement, "-");
    assert_eq!(fix.range.start_line, 2);
}

#[test]
fn the_style_option_names_the_bullet() {
    let diagnostics = check("- one\n- two\n", &styled("asterisk"));
    assert_eq!(diagnostics.len(), 2);
}

#[test]
fn ordered_items_have_no_bullet() {
    assert!(check("1. one\n2. two\n", &styled("dash")).is_empty());
}
