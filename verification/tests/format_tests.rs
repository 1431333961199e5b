use mq_content_lint::config::LintConfig;
use mq_content_lint::custom_rules::CustomDiagnostic;
use mq_content_lint::doc::parse_document;
use mq_content_lint::report::{escape_cell, markdown_report, rdjson_severity, sarif_level};
use mq_content_lint::report_item::ReportItem;
use mq_content_lint::text_report::{text_report, Color, Segment};
use mq_content_lint::{Linter, Range, RuleId, Severity};

fn sample_source() -> &'static str {
    "![](missing-alt.png)\n"
}

fn sample_items() -> Vec<ReportItem> {
    let source = sample_source();
    let doc = parse_document(source).unwrap();
    Linter::with_default_rules()
        .run(&doc, source, &LintConfig::default())
        .into_iter()
        .filter(|d| d.rule_id() == RuleId::ImageMissingAlt)
        .map(ReportItem::Builtin)
        .collect()
}

fn plain(segments: &[Segment]) -> String {
    segments.iter().map(|s| s.text.as_str()).collect()
}

fn write_text_report(file: &str, code: &str, items: Vec<ReportItem>) -> (String, bool) {
    let (segments, had) = text_report(file, code, &items);
    (plain(&segments), had)
}

#[test]
fn test_write_markdown_report_produces_table() {
    let items = sample_items();
    assert!(!items.is_empty());
    let results = vec![("test.md".to_string(), "![](missing-alt.png)\n".to_string(), items)];
    let output = markdown_report(&results);

    assert!(output.contains("# mq-content-lint Report"));
    assert!(output.contains("| File | Severity | Rule | Location | Message |"));
    assert!(output.contains("test.md"));
    assert!(output.contains("`image_missing_alt`"));
    assert!(output.contains("**Found 1 issue.**"));
}

#[test]
fn test_write_markdown_report_no_issues() {
    let results: Vec<(String, String, Vec<ReportItem>)> =
        vec![("test.md".to_string(), String::new(), Vec::new())];
    let output = markdown_report(&results);
    assert!(output.contains("No content lint issues found."));
    assert!(!output.contains('|'));
}

#[test]
fn test_escape_cell() {
    assert_eq!(escape_cell("a | b"), "a \\| b");
    assert_eq!(escape_cell("line1\nline2"), "line1 line2");
}

#[test]
fn markdown_report_counts_every_file_and_escapes_cells() {
    let custom = |msg: &str| {
        ReportItem::Custom(CustomDiagnostic {
            rule_id: "no_todo".to_string(),
            message: msg.to_string(),
            severity: Severity::Warning,
            range: Some(Range { start_line: 3, start_column: 7, end_line: 3, end_column: 9 }),
            fix: None,
        })
    };
    let results = vec![
        ("a|b.md".to_string(), String::new(), vec![custom("x | y")]),
        ("c.md".to_string(), String::new(), vec![custom("one\ntwo")]),
    ];
    let output = markdown_report(&results);
    assert_eq!(
        output,
        "# mq-content-lint Report\n\n\
         | File | Severity | Rule | Location | Message |\n\
         | --- | --- | --- | --- | --- |\n\
         | a\\|b.md | warning | `no_todo` | 3:7 | x \\| y |\n\
         | c.md | warning | `no_todo` | 3:7 | one two |\n\
         \n**Found 2 issues.**\n"
    );
}

#[test]
fn test_write_text_report_no_issues() {
    let (output, had_diagnostics) = write_text_report("test.md", "", Vec::new());
    assert!(!had_diagnostics);
    assert!(output.contains("No content lint issues found."));
}

#[test]
fn test_write_text_report_with_diagnostics() {
    let items = sample_items();
    let (output, had_diagnostics) = write_text_report("test.md", sample_source(), items);
    assert!(had_diagnostics);
    assert!(output.contains("┌─ Errors"));
    assert!(output.contains("└─"));
    assert!(output.contains("test.md:1:1"));
    assert!(output.contains("found 1 issue (1 error)."));
}

#[test]
fn test_write_text_report_shows_snippet_with_caret() {
    let items = sample_items();
    let (output, _) = write_text_report("test.md", sample_source(), items);
    assert!(output.contains("![](missing-alt.png)"));
    assert!(output.contains('^'));
}

#[test]
fn test_write_text_report_with_custom_rule() {
    let item = ReportItem::Custom(CustomDiagnostic {
        rule_id: "no_todo".to_string(),
        message: "found a TODO".to_string(),
        severity: Severity::Warning,
        range: None,
        fix: None,
    });
    let (output, _) = write_text_report("test.md", "", vec![item]);
    assert!(output.contains("found a TODO"));
    assert!(output.contains("no_todo"));
}

#[test]
fn text_report_groups_by_severity_and_draws_the_caret_under_the_range() {
    let warn = ReportItem::Custom(CustomDiagnostic {
        rule_id: "no_todo".to_string(),
        message: "found a TODO".to_string(),
        severity: Severity::Warning,
        range: Some(Range { start_line: 2, start_column: 3, end_line: 2, end_column: 7 }),
        fix: None,
    });
    let info = ReportItem::Custom(CustomDiagnostic {
        rule_id: "style".to_string(),
        message: "consider".to_string(),
        severity: Severity::Info,
        range: None,
        fix: None,
    });
    let (output, had) = write_text_report("f.md", "# T\nA TODO here\n", vec![info, warn]);
    assert!(had);
    assert_eq!(
        output,
        "┌─ Warnings\n│\n│ [W] found a TODO\n│\n│    2 │ A TODO here\n│      │   ^^^^\n│\n│     f.md:2:3 no_todo\n└─\n\
         \n┌─ Info\n│\n│ [I] consider\n│     f.md style\n└─\n\
         \nfound 2 issues (1 warning, 1 info).\n"
    );
}

#[test]
fn text_report_colors_follow_the_severity() {
    let items = sample_items();
    let (segments, _) = text_report("test.md", sample_source(), &items);
    let caret = segments.iter().find(|s| s.text.starts_with('^')).unwrap();
    assert_eq!(caret.style.color, Color::BrightRed);
    assert!(caret.style.bold);
    let label = segments.iter().find(|s| s.text.contains("image_missing_alt")).unwrap();
    assert_eq!(label.text, "image_missing_alt (.image)");
    assert!(label.style.dimmed);
}

#[test]
fn multi_line_range_underlines_to_the_end_of_the_line_in_bytes() {
    let item = ReportItem::Custom(CustomDiagnostic {
        rule_id: "r".to_string(),
        message: "m".to_string(),
        severity: Severity::Error,
        range: Some(Range { start_line: 1, start_column: 1, end_line: 2, end_column: 1 }),
        fix: None,
    });
    let (segments, _) = text_report("f.md", "é!\nx\n", &vec![item]);
    let caret = segments.iter().find(|s| s.text.starts_with('^')).unwrap();
    assert_eq!(caret.text, "^^^");
}

#[test]
fn level_names() {
    assert_eq!(sarif_level(Severity::Error), "error");
    assert_eq!(sarif_level(Severity::Warning), "warning");
    assert_eq!(sarif_level(Severity::Info), "note");
    assert_eq!(rdjson_severity(Severity::Error), "ERROR");
    assert_eq!(rdjson_severity(Severity::Warning), "WARNING");
    assert_eq!(rdjson_severity(Severity::Info), "INFO");
}
