use mq_content_lint::fix::apply_fixes;
use mq_content_lint::{Fix, Range};

#[test]
fn apply_fixes_replaces_a_single_span() {
    let source = "#Title\n";
    let fixes = vec![Fix::new(Range::single_line(1, 1, 2), "# ")];
    assert_eq!(apply_fixes(source, &fixes), "# Title\n");
}

#[test]
fn apply_fixes_handles_multiple_non_overlapping_edits() {
    let source = "#One\n\n##Two\n";
    let fixes = vec![
        Fix::new(Range::single_line(1, 1, 2), "# "),
        Fix::new(Range::single_line(3, 1, 3), "## "),
    ];
    assert_eq!(apply_fixes(source, &fixes), "# One\n\n## Two\n");
}

#[test]
fn apply_fixes_supports_pure_insertion_at_a_zero_width_range() {
    let source = "# Title\nBody\n";
    let fixes = vec![Fix::new(Range::at(2, 1), "\n")];
    assert_eq!(apply_fixes(source, &fixes), "# Title\n\nBody\n");
}

#[test]
fn apply_fixes_drops_the_earlier_overlapping_edit() {
    let source = "hello world\n";
    let fixes = vec![
        Fix::new(Range::single_line(1, 1, 12), "replaced"),
        Fix::new(Range::single_line(1, 7, 12), "WORLD"),
    ];
    assert_eq!(apply_fixes(source, &fixes), "hello WORLD\n");
}

#[test]
fn apply_fixes_with_no_fixes_returns_the_source() {
    let source = "unchanged\ntext";
    assert_eq!(apply_fixes(source, &[]), source);
}

#[test]
fn apply_fixes_skips_a_fix_outside_the_source() {
    let source = "one line\n";
    let fixes = vec![Fix::new(Range::single_line(9, 1, 2), "x")];
    assert_eq!(apply_fixes(source, &fixes), source);
}

#[test]
fn apply_fixes_lets_the_later_starting_fix_win_whichever_comes_first() {
    let source = "hello world\n";
    let fixes = vec![
        Fix::new(Range::single_line(1, 7, 12), "WORLD"),
        Fix::new(Range::single_line(1, 1, 12), "replaced"),
    ];
    assert_eq!(apply_fixes(source, &fixes), "hello WORLD\n");
}

#[test]
fn apply_fixes_gives_the_same_text_whatever_the_order_of_disjoint_fixes() {
    let source = "#One\n\n##Two\n\n###Three\n";
    let a = Fix::new(Range::single_line(1, 1, 2), "# ");
    let b = Fix::new(Range::single_line(3, 1, 3), "## ");
    let c = Fix::new(Range::single_line(5, 1, 4), "### ");
    let expected = "# One\n\n## Two\n\n### Three\n";
    assert_eq!(apply_fixes(source, &[a.clone(), b.clone(), c.clone()]), expected);
    assert_eq!(apply_fixes(source, &[c.clone(), a.clone(), b.clone()]), expected);
    assert_eq!(apply_fixes(source, &[b, c, a]), expected);
}

#[test]
fn apply_fixes_ignores_an_unmapped_fix_among_others() {
    let source = "#One\n\n##Two\n";
    let a = Fix::new(Range::single_line(1, 1, 2), "# ");
    let g = Fix::new(Range::single_line(40, 1, 2), "x");
    let b = Fix::new(Range::single_line(3, 1, 3), "## ");
    assert_eq!(apply_fixes(source, &[a, g, b]), "# One\n\n## Two\n");
}
