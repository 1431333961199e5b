use mq_content_lint::config::{FileConfig, LintConfig, OptionValue, RuleEntry};
use mq_content_lint::doc::parse_document;
use mq_content_lint::rules::check_rule;
use mq_content_lint::{Diagnostic, LintMessage, Range, RuleId};

fn check(markdown: &str, config: &LintConfig) -> Vec<Diagnostic> {
    let doc = parse_document(markdown).unwrap();
    check_rule(RuleId::HeadingStyle, &doc, markdown, config)
}

fn run(markdown: &str) -> Vec<Diagnostic> {
    check(markdown, &LintConfig::default())
}

fn style_config(style: &str) -> LintConfig {
    LintConfig::from_file_config(FileConfig {
        rules: vec![(
            "heading_style".to_string(),
            RuleEntry::Table(vec![("style".to_string(), OptionValue::Str(style.to_string()))]),
        )],
        required_keys: Vec::new(),
        custom_rules: Vec::new(),
        ignore: Vec::new(),
    })
    .unwrap()
}

#[test]
fn no_diagnostics_when_all_atx() {
    assert!(run("# One\n\n## Two\n").is_empty());
}

#[test]
fn flags_a_style_change_from_the_first_headings_style() {
    let diagnostics = run("# One\n\n## Two ##\n");
    assert_eq!(diagnostics.len(), 1);
    assert_eq!(
        diagnostics[0].message,
        LintMessage::HeadingStyle { expected: "atx".to_string(), found: "atx_closed".to_string() }
    );
}

#[test]
fn fix_rewrites_atx_closed_to_atx() {
    let diagnostics = run("# One\n\n## Two ##\n");
    let fix = diagnostics[0].fix.as_ref().unwrap();
    assert_eq!(fix.replacement, "## Two");
}

#[test]
fn respects_configured_style() {
    let config = style_config("atx_closed");
    let diagnostics = check("# One\n", &config);
    assert_eq!(diagnostics.len(), 1);
    assert_eq!(diagnostics[0].fix.as_ref().unwrap().replacement, "# One #");
}

#[test]
fn fix_covers_the_whole_heading_line() {
    let diagnostics = run("## A\n\n### B ###\n");
    let fix = diagnostics[0].fix.as_ref().unwrap();
    assert_eq!(fix.range, Range { start_line: 3, start_column: 1, end_line: 3, end_column: 10 });
    assert_eq!(fix.replacement, "### B");
}

#[test]
fn setext_headings_are_flagged_without_a_fix() {
    let diagnostics = run("# One\n\nTwo\n===\n");
    assert_eq!(diagnostics.len(), 1);
    assert_eq!(
        diagnostics[0].message,
        LintMessage::HeadingStyle { expected: "atx".to_string(), found: "setext".to_string() }
    );
    assert!(diagnostics[0].fix.is_none());
}

#[test]
fn an_unknown_configured_style_falls_back_to_the_first_heading() {
    let config = style_config("fancy");
    assert!(check("# One\n\n## Two\n", &config).is_empty());
}
