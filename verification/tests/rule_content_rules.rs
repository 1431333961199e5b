use mq_content_lint::config::LintConfig;
use mq_content_lint::doc::parse_document;
use mq_content_lint::fix::apply_fixes;
use mq_content_lint::rules::check_rule;
use mq_content_lint::{Diagnostic, LintMessage, Range, RuleId};

fn check(id: RuleId, markdown: &str) -> Vec<Diagnostic> {
    let doc = parse_document(markdown).unwrap();
    check_rule(id, &doc, markdown, &LintConfig::default())
}

#[test]
fn no_diagnostics_for_descriptive_text() {
    assert!(check(RuleId::DescriptiveLinkText, "[the pricing page](https://example.com/pricing)\n").is_empty());
}

#[test]
fn flags_click_here() {
    let diagnostics = check(RuleId::DescriptiveLinkText, "[Click here](https://example.com)\n");
    assert_eq!(diagnostics.len(), 1);
    assert_eq!(diagnostics[0].message, LintMessage::DescriptiveLinkText { text: "Click here".to_string() });
}

#[test]
fn no_diagnostics_for_emphasis_within_a_sentence() {
    assert!(check(RuleId::NoEmphasisAsHeading, "This is **important** context.\n").is_empty());
}

#[test]
fn flags_a_standalone_bold_line() {
    let diagnostics = check(RuleId::NoEmphasisAsHeading, "Intro\n\n**Section Title**\n\nBody\n");
    assert_eq!(diagnostics.len(), 1);
    assert_eq!(
        diagnostics[0].message,
        LintMessage::NoEmphasisAsHeading { text: "Section Title".to_string() }
    );
}

#[test]
fn no_diagnostics_for_a_real_heading() {
    assert!(check(RuleId::NoEmphasisAsHeading, "# Section Title\n").is_empty());
}

#[test]
fn no_diagnostics_when_output_is_shown() {
    assert!(check(RuleId::CommandsShowOutput, "```\n$ ls\nfile.txt\n```\n").is_empty());
}

#[test]
fn flags_and_fixes_a_block_of_only_commands() {
    let source = "```\n$ ls\n$ pwd\n```\n";
    let diagnostics = check(RuleId::CommandsShowOutput, source);
    assert_eq!(diagnostics.len(), 1);
    let fixed = apply_fixes(source, &[diagnostics[0].fix.clone().unwrap()]);
    assert_eq!(fixed, "```\nls\npwd\n```\n");
    assert_eq!(
        diagnostics[0].fix.as_ref().unwrap().range,
        Range { start_line: 2, start_column: 1, end_line: 4, end_column: 1 }
    );
}
