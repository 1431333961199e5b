use mq_content_lint::config::{FileConfig, LintConfig, OptionValue, RuleEntry};
use mq_content_lint::custom_rules::CustomRule;
use mq_content_lint::doc::parse_document;
use mq_content_lint::report_item::lint;
use mq_content_lint::{Linter, RuleId, Severity};

fn option_value(v: &toml::Value) -> OptionValue {
    match v {
        toml::Value::String(s) => OptionValue::Str(s.clone()),
        toml::Value::Integer(i) => OptionValue::Int(*i),
        toml::Value::Boolean(b) => OptionValue::Bool(*b),
        toml::Value::Array(a) => OptionValue::StrList(a.iter().map(|x| x.as_str().unwrap().to_string()).collect()),
        other => panic!("unexpected option value {other:?}"),
    }
}

fn severity(s: &str) -> Severity {
    match s {
        "info" => Severity::Info,
        "warning" => Severity::Warning,
        "error" => Severity::Error,
        other => panic!("not a severity: {other}"),
    }
}

/// Reads a config file's text into the library's `FileConfig` shape, then into a `LintConfig`.
fn from_toml_str(text: &str) -> Result<LintConfig, String> {
    let table: toml::Table = toml::from_str(text).map_err(|e| e.to_string())?;
    let mut rules = Vec::new();
    if let Some(toml::Value::Table(r)) = table.get("rules") {
        for (name, v) in r {
            let entry = match v {
                toml::Value::Boolean(b) => RuleEntry::Flag(*b),
                toml::Value::String(s) => RuleEntry::Level(s.clone()),
                toml::Value::Table(t) => RuleEntry::Table(t.iter().map(|(k, v)| (k.clone(), option_value(v))).collect()),
                other => panic!("unexpected rule entry {other:?}"),
            };
            rules.push((name.clone(), entry));
        }
    }
    let mut required_keys = Vec::new();
    if let Some(toml::Value::Table(fm)) = table.get("front_matter") {
        if let Some(toml::Value::Array(keys)) = fm.get("required_keys") {
            required_keys = keys.iter().map(|k| k.as_str().unwrap().to_string()).collect();
        }
    }
    let mut custom_rules = Vec::new();
    if let Some(toml::Value::Array(rs)) = table.get("custom_rules") {
        for r in rs {
            let t = r.as_table().unwrap();
            custom_rules.push(CustomRule {
                id: t["id"].as_str().unwrap().to_string(),
                query: t["query"].as_str().unwrap().to_string(),
                message: t["message"].as_str().unwrap().to_string(),
                severity: t.get("severity").map(|s| severity(s.as_str().unwrap())).unwrap_or(Severity::Warning),
                fix: t.get("fix").map(|f| f.as_str().unwrap().to_string()),
            });
        }
    }
    let file = FileConfig { rules, required_keys, custom_rules, ignore: Vec::new() };
    LintConfig::from_file_config(file)
}

#[test]
fn rule_can_be_disabled_with_a_bool() {
    let config = from_toml_str(
        r#"
        [rules]
        image_missing_alt = false
        "#,
    )
    .unwrap();
    assert!(!config.is_rule_enabled(RuleId::ImageMissingAlt));
    assert!(config.is_rule_enabled(RuleId::HeadingHierarchySkip));
}

#[test]
fn rule_severity_can_be_overridden_with_a_string() {
    let config = from_toml_str(
        r#"
        [rules]
        heading_hierarchy_skip = "error"
        "#,
    )
    .unwrap();
    assert!(config.is_rule_enabled(RuleId::HeadingHierarchySkip));
    assert_eq!(config.severity_for(RuleId::HeadingHierarchySkip, Severity::Warning), Severity::Error);
}

#[test]
fn front_matter_required_keys_are_parsed() {
    let config = from_toml_str(
        r#"
        [front_matter]
        required_keys = ["title", "date"]
        "#,
    )
    .unwrap();
    assert_eq!(config.required_front_matter_keys, vec!["title", "date"]);
}

#[test]
fn unknown_rule_name_is_a_parse_error() {
    let result = from_toml_str(
        r#"
        [rules]
        not_a_real_rule = true
        "#,
    );
    assert!(result.is_err());
}

#[test]
fn invalid_severity_string_is_a_parse_error() {
    let result = from_toml_str(
        r#"
        [rules]
        image_missing_alt = "critical"
        "#,
    );
    assert!(result.is_err());
}

#[test]
fn lint_merges_and_sorts_builtin_and_custom_diagnostics() {
    let source = "# Title\n\n![](missing-alt.png)\n";
    let markdown: mq_markdown::Markdown = source.parse().unwrap();
    let doc = parse_document(source).unwrap();
    let config = from_toml_str(
        r#"
        [[custom_rules]]
        id = "no_todo"
        query = '.h'
        message = "found a heading"
        "#,
    )
    .unwrap();
    let linter = Linter::with_default_rules();

    let items = lint(&doc, &markdown, source, &linter, &config).unwrap();

    assert_eq!(items.len(), 2);
    assert_eq!(items[0].rule_id(), "no_todo");
    assert_eq!(items[0].range().unwrap().start_line, 1);
    assert_eq!(items[1].rule_id(), "image_missing_alt");
    assert_eq!(items[1].range().unwrap().start_line, 3);
}

#[test]
fn lint_propagates_a_custom_rule_error() {
    let source = "# Title\n";
    let markdown: mq_markdown::Markdown = source.parse().unwrap();
    let doc = parse_document(source).unwrap();
    let config = from_toml_str(
        r#"
        [[custom_rules]]
        id = "broken"
        query = "this is not valid mq((("
        message = "never fires"
        "#,
    )
    .unwrap();
    let linter = Linter::with_default_rules();

    assert!(lint(&doc, &markdown, source, &linter, &config).is_err());
}

#[test]
fn lint_drops_what_a_disable_comment_suppresses() {
    let source = "<!-- mq-content-lint-disable-next-line image_missing_alt -->\n![](a.png)\n![](b.png)\n";
    let markdown: mq_markdown::Markdown = source.parse().unwrap();
    let doc = parse_document(source).unwrap();
    let items = lint(&doc, &markdown, source, &Linter::with_default_rules(), &LintConfig::default()).unwrap();
    let alt: Vec<_> = items.iter().filter(|i| i.rule_id() == "image_missing_alt").collect();
    assert_eq!(alt.len(), 1);
    assert_eq!(alt[0].range().unwrap().start_line, 3);
}
