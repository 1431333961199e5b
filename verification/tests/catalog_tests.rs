use mq_content_lint::catalog::{explain_rule, rule_listing};
use mq_content_lint::text_report::{Color, Segment};
use mq_content_lint::RuleId;

fn plain(segments: &[Segment]) -> String {
    segments.iter().map(|s| s.text.as_str()).collect()
}

#[test]
fn test_explain_rule_prints_description_severity_and_options() {
    let text = plain(&explain_rule(RuleId::LineLength));
    assert!(text.contains("MD013: line length."));
    assert!(text.contains("default severity: info"));
    assert!(text.contains("fixable:          no"));
    assert!(text.contains("limit"));
    assert!(text.contains("line_length = false"));
}

#[test]
fn test_explain_rule_reports_fixable_yes_for_a_fixable_rule() {
    let text = plain(&explain_rule(RuleId::HeadingStyle));
    assert!(text.contains("fixable:          yes"));
}

#[test]
fn test_explain_rule_reports_no_options_for_a_rule_with_none() {
    let text = plain(&explain_rule(RuleId::FirstLineHeading));
    assert!(text.contains("options:          none"));
}

#[test]
fn explain_rule_lists_every_option_and_the_selector() {
    let segments = explain_rule(RuleId::LineLength);
    assert_eq!(segments[0].text, "line_length");
    assert_eq!(segments[0].style.color, Color::BrightCyan);
    assert!(plain(&segments).contains("options:          limit, code_blocks\n"));
    let heading = plain(&explain_rule(RuleId::HeadingStyle));
    assert!(heading.contains("mq selector:      .h\n"));
}

#[test]
fn rule_listing_has_one_aligned_line_per_rule() {
    let text = plain(&rule_listing());
    let line = text.lines().find(|l| l.starts_with("image_missing_alt ")).unwrap();
    assert_eq!(line, format!("{:<34} {:<8} {:<4} {}", "image_missing_alt", "error", "fix", ".image"));
    let heading = text.lines().find(|l| l.starts_with("heading_style ")).unwrap();
    assert_eq!(heading, format!("{:<34} {:<8} {:<4} {}", "heading_style", "warning", "fix", ".h"));
}

#[test]
fn explaining_a_rule_id_without_a_rule_says_it_reports_nothing() {
    let text = plain(&explain_rule(RuleId::ProperNames));
    assert!(text.contains("not carried:"));
    let carried = plain(&explain_rule(RuleId::HeadingStyle));
    assert!(!carried.contains("not carried:"));
}
