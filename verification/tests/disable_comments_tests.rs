use mq_content_lint::disable_comments::scan;

#[test]
fn a_line_with_no_directives_is_unaffected() {
    let disabled = scan("# Title\n\nSome text.\n");
    assert!(!disabled.suppresses("any_rule", 1));
    assert!(!disabled.suppresses("any_rule", 3));
}

#[test]
fn disable_suppresses_a_named_rule_from_that_line_onward() {
    let source = "line 1\n<!-- mq-content-lint-disable line_length -->\nline 3\nline 4\n";
    let disabled = scan(source);
    assert!(!disabled.suppresses("line_length", 1));
    assert!(disabled.suppresses("line_length", 2));
    assert!(disabled.suppresses("line_length", 3));
    assert!(disabled.suppresses("line_length", 4));
    assert!(!disabled.suppresses("no_hard_tabs", 3));
}

#[test]
fn disable_with_no_rules_suppresses_everything() {
    let source = "<!-- mq-content-lint-disable -->\nline 2\n";
    let disabled = scan(source);
    assert!(disabled.suppresses("line_length", 2));
    assert!(disabled.suppresses("literally_anything", 2));
}

#[test]
fn enable_ends_a_disabled_span() {
    let source = "<!-- mq-content-lint-disable line_length -->\nline 2\n<!-- mq-content-lint-enable line_length -->\nline 4\n";
    let disabled = scan(source);
    assert!(disabled.suppresses("line_length", 2));
    assert!(!disabled.suppresses("line_length", 4));
}

#[test]
fn enable_with_no_rules_clears_a_disable_all() {
    let source = "<!-- mq-content-lint-disable -->\n<!-- mq-content-lint-enable -->\nline 3\n";
    let disabled = scan(source);
    assert!(!disabled.suppresses("anything", 3));
}

#[test]
fn disable_line_only_affects_its_own_line() {
    let source = "line 1\n<!-- mq-content-lint-disable-line line_length -->\nline 3\n";
    let disabled = scan(source);
    assert!(!disabled.suppresses("line_length", 1));
    assert!(disabled.suppresses("line_length", 2));
    assert!(!disabled.suppresses("line_length", 3));
}

#[test]
fn disable_next_line_only_affects_the_following_line() {
    let source = "<!-- mq-content-lint-disable-next-line line_length -->\nline 2\nline 3\n";
    let disabled = scan(source);
    assert!(!disabled.suppresses("line_length", 1));
    assert!(disabled.suppresses("line_length", 2));
    assert!(!disabled.suppresses("line_length", 3));
}

#[test]
fn multiple_rule_ids_are_comma_separated() {
    let source = "<!-- mq-content-lint-disable-line line_length, no_hard_tabs -->\n";
    let disabled = scan(source);
    assert!(disabled.suppresses("line_length", 1));
    assert!(disabled.suppresses("no_hard_tabs", 1));
    assert!(!disabled.suppresses("no_trailing_spaces", 1));
}

#[test]
fn a_comment_sharing_its_line_with_other_text_is_not_a_directive() {
    let source = "text <!-- mq-content-lint-disable line_length --> more text\n";
    let disabled = scan(source);
    assert!(!disabled.suppresses("line_length", 1));
}

#[test]
fn an_unrecognized_comment_is_ignored() {
    let disabled = scan("<!-- just a regular comment -->\n");
    assert!(!disabled.suppresses("anything", 1));
}

#[test]
fn enabling_one_rule_keeps_a_disable_all_in_force() {
    let source = "<!-- mq-content-lint-disable -->\n<!-- mq-content-lint-enable line_length -->\nline 3\n";
    let disabled = scan(source);
    assert!(disabled.suppresses("line_length", 3));
}

#[test]
fn line_zero_and_lines_past_the_end_are_never_suppressed() {
    let disabled = scan("<!-- mq-content-lint-disable -->\n");
    assert!(!disabled.suppresses("anything", 0));
    assert!(!disabled.suppresses("anything", 5));
}

#[test]
fn disable_next_line_on_the_last_line_reaches_one_past_the_end() {
    let disabled = scan("text\n<!-- mq-content-lint-disable-next-line -->\n");
    assert!(disabled.suppresses("anything", 3));
    assert!(!disabled.suppresses("anything", 1));
}
