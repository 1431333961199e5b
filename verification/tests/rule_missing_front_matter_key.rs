use mq_content_lint::config::LintConfig;
use mq_content_lint::doc::parse_document;
use mq_content_lint::rules::check_rule;
use mq_content_lint::{Diagnostic, LintMessage, RuleId};

fn run(markdown: &str, required_keys: &[&str]) -> Vec<Diagnostic> {
    let doc = parse_document(markdown).unwrap();
    let mut config = LintConfig::default();
    config.required_front_matter_keys = required_keys.iter().map(|k| k.to_string()).collect();
    check_rule(RuleId::MissingFrontMatterKey, &doc, markdown, &config)
}

#[test]
fn no_diagnostics_with_no_required_keys_configured() {
    assert!(run("# Title\n", &[]).is_empty());
    assert!(run("---\ntitle: Hello\n---\n\n# Title\n", &[]).is_empty());
}

#[test]
fn no_diagnostics_when_all_required_keys_are_present() {
    assert!(run("---\ntitle: Hello\ndate: 2024-01-01\n---\n\n# Title\n", &["title", "date"]).is_empty());
}

#[test]
fn flags_a_missing_key_when_front_matter_exists() {
    let diagnostics = run("---\ntitle: Hello\n---\n\n# Title\n", &["title", "date"]);
    assert_eq!(diagnostics.len(), 1);
    assert_eq!(
        diagnostics[0].message,
        LintMessage::MissingFrontMatterKey { key: "date".to_string(), front_matter_present: true }
    );
}

#[test]
fn flags_every_required_key_when_front_matter_is_entirely_absent() {
    let diagnostics = run("# Title\n\nNo front matter here.\n", &["title", "date"]);
    assert_eq!(diagnostics.len(), 2);
    assert!(diagnostics.iter().all(|d| matches!(
        &d.message,
        LintMessage::MissingFrontMatterKey { front_matter_present: false, .. }
    )));
}

#[test]
fn flags_invalid_yaml_front_matter() {
    let diagnostics = run("---\ntitle: [unterminated\n---\n\n# Title\n", &["title"]);
    assert_eq!(diagnostics.len(), 1);
    assert!(matches!(diagnostics[0].message, LintMessage::InvalidFrontMatter { .. }));
}

#[test]
fn supports_toml_front_matter() {
    assert!(run("+++\ntitle = \"Hello\"\n+++\n\n# Title\n", &["title"]).is_empty());
    assert_eq!(run("+++\ntitle = \"Hello\"\n+++\n\n# Title\n", &["title", "date"]).len(), 1);
}

#[test]
fn a_present_key_is_reported_at_the_front_matter() {
    let diagnostics = run("---\ntitle: Hello\n---\n\n# Title\n", &["date"]);
    assert_eq!(diagnostics.len(), 1);
    assert_eq!(diagnostics[0].range.unwrap().start_line, 1);
    assert_eq!(diagnostics[0].text(), "front matter is missing required key `date`");
}
