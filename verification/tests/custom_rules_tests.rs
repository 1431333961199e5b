use mq_content_lint::custom_rules::{combine, run, CustomRule, QueryMatch};
use mq_content_lint::{Range, Severity};

fn rule(query: &str) -> CustomRule {
    CustomRule {
        id: "test_rule".to_string(),
        query: query.to_string(),
        message: "matched".to_string(),
        severity: Severity::Warning,
        fix: None,
    }
}

fn parse(source: &str) -> mq_markdown::Markdown {
    source.parse().unwrap()
}

#[test]
fn no_diagnostics_when_query_matches_nothing() {
    let doc = parse("# Title\n");
    let diagnostics = run(&vec![rule(".image")], &doc).unwrap();
    assert!(diagnostics.is_empty());
}

#[test]
fn one_diagnostic_per_matched_node() {
    let doc = parse("# One\n\n## Two\n");
    let diagnostics = run(&vec![rule(".h")], &doc).unwrap();
    assert_eq!(diagnostics.len(), 2);
    assert_eq!(diagnostics[0].rule_id, "test_rule");
    assert_eq!(diagnostics[0].message, "matched");
    assert_eq!(diagnostics[0].range.unwrap().start_line, 1);
    assert_eq!(diagnostics[1].range.unwrap().start_line, 3);
}

#[test]
fn supports_select_expressions() {
    let doc = parse("![](missing.png)\n\n![alt text](present.png)\n");
    let diagnostics = run(&vec![rule(r#"select(.image.alt == "")"#)], &doc).unwrap();
    assert_eq!(diagnostics.len(), 1);
    assert_eq!(diagnostics[0].range.unwrap().start_line, 1);
}

#[test]
fn severity_is_configurable() {
    let doc = parse("# Title\n");
    let mut r = rule(".h");
    r.severity = Severity::Error;
    let diagnostics = run(&vec![r], &doc).unwrap();
    assert_eq!(diagnostics[0].severity, Severity::Error);
}

#[test]
fn fix_query_produces_a_replacement_for_the_matched_node() {
    let doc = parse("TODO: fix this\n");
    let mut r = rule(r#"select(contains(to_text(), "TODO"))"#);
    r.fix = Some(r#"replace("TODO", "DONE")"#.to_string());
    let diagnostics = run(&vec![r], &doc).unwrap();
    assert_eq!(diagnostics.len(), 1);
    assert_eq!(diagnostics[0].fix.as_ref().unwrap().replacement, "DONE: fix this");
    assert_eq!(diagnostics[0].fix.as_ref().unwrap().range, diagnostics[0].range.unwrap());
}

#[test]
fn no_fix_query_means_no_fix() {
    let doc = parse("# Title\n");
    let diagnostics = run(&vec![rule(".h")], &doc).unwrap();
    assert!(diagnostics[0].fix.is_none());
}

#[test]
fn an_invalid_fix_query_is_a_reported_error() {
    let doc = parse("# Title\n");
    let mut r = rule(".h");
    r.fix = Some("this is not valid mq (((".to_string());
    let result = run(&vec![r], &doc);
    assert!(result.is_err());
    assert_eq!(result.unwrap_err().rule_id, "test_rule");
}

#[test]
fn invalid_query_is_a_reported_error_not_a_silent_no_op() {
    let doc = parse("# Title\n");
    let result = run(&vec![rule("this is not valid mq (((")], &doc);
    assert!(result.is_err());
    assert_eq!(result.unwrap_err().rule_id, "test_rule");
}

#[test]
fn multiple_rules_are_all_run_and_merged_in_position_order() {
    let doc = parse("# Title\n\n![](missing.png)\n");
    let rules = vec![
        CustomRule { id: "b_rule".to_string(), ..rule(".image") },
        CustomRule { id: "a_rule".to_string(), ..rule(".h") },
    ];
    let diagnostics = run(&rules, &doc).unwrap();
    assert_eq!(diagnostics.len(), 2);
    assert_eq!(diagnostics[0].rule_id, "a_rule");
    assert_eq!(diagnostics[1].rule_id, "b_rule");
}

#[test]
fn custom_rule_error_text_names_the_rule() {
    let doc = parse("# Title\n");
    let err = run(&vec![rule("this is not valid mq (((")], &doc).unwrap_err();
    assert!(err.text().starts_with("custom rule `test_rule`: "));
}

#[test]
fn no_custom_rules_means_no_findings() {
    let doc = parse("# Title\n\nTODO: write\n");
    let diagnostics = run(&Vec::new(), &doc).unwrap();
    assert!(diagnostics.is_empty());
}

#[test]
fn combine_reports_the_first_failing_rule_in_order() {
    let mut second = rule(".h");
    second.id = "second".to_string();
    second.fix = Some("x".to_string());
    let rules = vec![rule(".h"), second, rule(".code")];
    let outcomes = vec![
        Ok(vec![QueryMatch { range: Range::single_line(2, 1, 3), fix: None }]),
        Ok(vec![
            QueryMatch { range: Range::single_line(1, 1, 3), fix: Some(Ok("a".to_string())) },
            QueryMatch { range: Range::single_line(3, 1, 3), fix: Some(Err("bad".to_string())) },
        ]),
        Err("never reached".to_string()),
    ];
    let err = combine(&rules, &outcomes).unwrap_err();
    assert_eq!(err.rule_id, "second");
    assert_eq!(err.reason, "fix: bad");
}

#[test]
fn combine_sorts_every_rules_findings_by_position() {
    let mut other = rule(".code");
    other.id = "other".to_string();
    let rules = vec![rule(".h"), other];
    let outcomes = vec![
        Ok(vec![QueryMatch { range: Range::single_line(3, 1, 2), fix: None }]),
        Ok(vec![
            QueryMatch { range: Range::single_line(1, 1, 2), fix: None },
            QueryMatch { range: Range::single_line(3, 1, 2), fix: None },
        ]),
    ];
    let ds = combine(&rules, &outcomes).unwrap();
    let got: Vec<(String, usize)> = ds.iter().map(|d| (d.rule_id.clone(), d.range.unwrap().start_line)).collect();
    assert_eq!(
        got,
        vec![("other".to_string(), 1), ("test_rule".to_string(), 3), ("other".to_string(), 3)]
    );
}
