use mq_content_lint::config::{FileConfig, LintConfig, OptionValue, RuleEntry};
use mq_content_lint::doc::parse_document;
use mq_content_lint::rules::check_rule;
use mq_content_lint::{Diagnostic, LintMessage, RuleId};

fn option_value(v: &toml::Value) -> OptionValue {
    match v {
        toml::Value::String(s) => OptionValue::Str(s.clone()),
        toml::Value::Integer(i) => OptionValue::Int(*i),
        toml::Value::Boolean(b) => OptionValue::Bool(*b),
        toml::Value::Array(a) => OptionValue::StrList(a.iter().map(|x| x.as_str().unwrap().to_string()).collect()),
        other => panic!("unsupported option value {other:?}"),
    }
}

fn config_from_toml(text: &str) -> LintConfig {
    let table: toml::Table = toml::from_str(text).unwrap();
    let mut rules = Vec::new();
    if let Some(toml::Value::Table(r)) = table.get("rules") {
        for (name, value) in r {
            let entry = match value {
                toml::Value::Boolean(b) => RuleEntry::Flag(*b),
                toml::Value::String(s) => RuleEntry::Level(s.clone()),
                toml::Value::Table(t) => RuleEntry::Table(t.iter().map(|(k, v)| (k.clone(), option_value(v))).collect()),
                other => panic!("unsupported rule entry {other:?}"),
            };
            rules.push((name.clone(), entry));
        }
    }
    let file = FileConfig { rules, required_keys: Vec::new(), custom_rules: Vec::new(), ignore: Vec::new() };
    LintConfig::from_file_config(file).unwrap()
}

fn check(markdown: &str, config: &LintConfig) -> Vec<Diagnostic> {
    let doc = parse_document(markdown).unwrap();
    check_rule(RuleId::LineLength, &doc, markdown, config)
}

fn run_with_limit(markdown: &str, limit: usize) -> Vec<Diagnostic> {
    let config = config_from_toml(&format!("[rules.line_length]\nlimit = {limit}\n"));
    check(markdown, &config)
}

#[test]
fn no_diagnostics_under_the_limit() {
    assert!(run_with_limit("short line\n", 80).is_empty());
}

#[test]
fn flags_a_line_over_the_limit() {
    let diagnostics = run_with_limit("this line is over the limit\n", 10);
    assert_eq!(diagnostics.len(), 1);
    assert_eq!(diagnostics[0].message, LintMessage::LineLength { length: 27, limit: 10 });
}

#[test]
fn falls_back_to_editorconfig_max_line_length_when_no_limit_is_configured() {
    let mut config = LintConfig::default();
    config.editorconfig_max_line_length = Some(10);
    let diagnostics = check("this line is over the limit\n", &config);
    assert_eq!(diagnostics.len(), 1);
    assert_eq!(diagnostics[0].message, LintMessage::LineLength { length: 27, limit: 10 });
}

#[test]
fn an_explicit_limit_wins_over_editorconfig_max_line_length() {
    let mut config = config_from_toml("[rules.line_length]\nlimit = 3\n");
    config.editorconfig_max_line_length = Some(80);
    let diagnostics = check("short\n", &config);
    assert_eq!(diagnostics.len(), 1);
    assert_eq!(diagnostics[0].message, LintMessage::LineLength { length: 5, limit: 3 });
}

#[test]
fn code_blocks_can_be_excluded() {
    let config = config_from_toml("[rules.line_length]\nlimit = 10\ncode_blocks = false\n");
    let diagnostics = check("```\nthis is a very long line inside a code block\n```\n", &config);
    assert!(diagnostics.is_empty());
}

#[test]
fn the_default_limit_is_eighty_characters() {
    let line = "x".repeat(81);
    let diagnostics = check(&format!("{line}\n"), &LintConfig::default());
    assert_eq!(diagnostics.len(), 1);
    assert_eq!(diagnostics[0].range.unwrap().start_column, 81);
    assert_eq!(diagnostics[0].range.unwrap().end_column, 82);
}

#[test]
fn an_unknown_option_key_is_a_config_error() {
    let file = FileConfig {
        rules: vec![("line_length".to_string(), RuleEntry::Table(vec![("limt".to_string(), OptionValue::Int(3))]))],
        required_keys: Vec::new(),
        custom_rules: Vec::new(),
        ignore: Vec::new(),
    };
    let err = LintConfig::from_file_config(file).unwrap_err();
    assert_eq!(err, "unknown option `limt` for rule `line_length`");
}
