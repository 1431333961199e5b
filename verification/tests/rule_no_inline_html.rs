use mq_content_lint::config::{LintConfig, OptionValue, RuleOption};
use mq_content_lint::doc::parse_document;
use mq_content_lint::rules::check_rule;
use mq_content_lint::{Diagnostic, LintMessage, RuleId};

fn run(markdown: &str) -> Vec<Diagnostic> {
    let doc = parse_document(markdown).unwrap();
    check_rule(RuleId::NoInlineHtml, &doc, markdown, &LintConfig::default())
}

#[test]
fn no_diagnostics_without_html() {
    assert!(run("Plain **markdown**.\n").is_empty());
}

#[test]
fn flags_a_raw_html_tag() {
    assert_eq!(run("<div>content</div>\n").len(), 1);
}

#[test]
fn allowed_tags_are_not_flagged() {
    let mut config = LintConfig::default();
    config.options.push(RuleOption {
        rule: RuleId::NoInlineHtml,
        key: "allowed".to_string(),
        value: OptionValue::StrList(vec!["br".to_string()]),
    });
    let doc = parse_document("line one<br>line two\n").unwrap();
    assert!(check_rule(RuleId::NoInlineHtml, &doc, "line one<br>line two\n", &config).is_empty());
}

#[test]
fn the_tag_name_is_reported_in_lowercase() {
    let diagnostics = run("<DIV>content</DIV>\n");
    assert_eq!(diagnostics.len(), 1);
    assert_eq!(diagnostics[0].message, LintMessage::NoInlineHtml { tag: "div".to_string() });
}
