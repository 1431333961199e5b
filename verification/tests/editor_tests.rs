use mq_content_lint::config::{FileConfig, LintConfig};
use mq_content_lint::custom_rules::CustomRule;
use mq_content_lint::editor::{
    disable_next_line_comment, disable_title, editor_entries, editor_severity, fix_title, hover_text,
    position_in_range, to_editor_range, EditorPosition, EditorRange, EditorSeverity, Generations,
};
use mq_content_lint::{Linter, Range, Severity};

fn pos(line: u32, character: u32) -> EditorPosition {
    EditorPosition { line, character }
}

fn span(a: EditorPosition, b: EditorPosition) -> EditorRange {
    EditorRange { start: a, end: b }
}

#[test]
fn debounce_generations_starts_at_one_and_increments() {
    let mut generations = Generations::new();
    assert_eq!(generations.bump("file:///a.md"), 1);
    assert_eq!(generations.bump("file:///a.md"), 2);
    assert_eq!(generations.bump("file:///a.md"), 3);
}

#[test]
fn debounce_generations_is_current_only_for_the_latest_bump() {
    let mut generations = Generations::new();
    let first = generations.bump("file:///a.md");
    assert!(generations.is_current("file:///a.md", first));
    let second = generations.bump("file:///a.md");
    assert!(!generations.is_current("file:///a.md", first), "superseded generation should no longer be current");
    assert!(generations.is_current("file:///a.md", second));
}

#[test]
fn debounce_generations_tracks_each_uri_independently() {
    let mut generations = Generations::new();
    let ga = generations.bump("file:///a.md");
    let gb = generations.bump("file:///b.md");
    assert!(generations.is_current("file:///a.md", ga));
    assert!(generations.is_current("file:///b.md", gb));
    generations.bump("file:///a.md");
    assert!(generations.is_current("file:///b.md", gb));
}

#[test]
fn debounce_generations_is_not_current_for_an_unbumped_uri() {
    let generations = Generations::new();
    assert!(!generations.is_current("file:///never-bumped.md", 1));
}

#[test]
fn debounce_generations_forget_clears_a_uris_generation() {
    let mut generations = Generations::new();
    let g = generations.bump("file:///a.md");
    generations.forget("file:///a.md");
    assert!(!generations.is_current("file:///a.md", g));
}

#[test]
fn to_lsp_range_converts_one_based_to_zero_based() {
    let r = to_editor_range(Range { start_line: 1, start_column: 1, end_line: 2, end_column: 5 });
    assert_eq!(r.start, pos(0, 0));
    assert_eq!(r.end, pos(1, 4));
}

#[test]
fn to_lsp_severity_maps_every_variant() {
    assert_eq!(editor_severity(Severity::Error), EditorSeverity::Error);
    assert_eq!(editor_severity(Severity::Warning), EditorSeverity::Warning);
    assert_eq!(editor_severity(Severity::Info), EditorSeverity::Information);
}

#[test]
fn lint_to_lsp_reports_a_builtin_diagnostic_with_its_rule_id_as_code() {
    let entries = editor_entries("![](x.png)\n", &Linter::with_default_rules(), &LintConfig::default());
    let entry = entries
        .iter()
        .find(|e| e.code.as_deref() == Some("image_missing_alt"))
        .expect("image_missing_alt should have fired");
    assert!(entry.fix.is_none(), "image_missing_alt has no mechanical fix");
    assert!(entry.help.is_some(), "image_missing_alt should have a help hint");
}

#[test]
fn lint_to_lsp_carries_a_fix_through_for_a_fixable_rule() {
    let entries = editor_entries("#Title\n", &Linter::with_default_rules(), &LintConfig::default());
    let index = entries
        .iter()
        .position(|e| e.code.as_deref() == Some("no_missing_space_atx"))
        .expect("no_missing_space_atx should have fired");
    assert!(entries[index].fix.is_some());
    assert_eq!(entries[index].index, Some(index));
}

#[test]
fn lint_to_lsp_surfaces_a_custom_rule_error_as_a_diagnostic_instead_of_dropping_it() {
    let config = LintConfig::from_file_config(FileConfig {
        rules: Vec::new(),
        required_keys: Vec::new(),
        custom_rules: vec![CustomRule {
            id: "broken".to_string(),
            query: "this is not valid mq(((".to_string(),
            message: "never fires".to_string(),
            severity: Severity::Warning,
            fix: None,
        }],
        ignore: Vec::new(),
    })
    .unwrap();
    let entries = editor_entries("# Title\n", &Linter::with_default_rules(), &config);
    assert_eq!(entries.len(), 1);
    assert!(entries[0].message.contains("broken"));
}

#[test]
fn disable_line_code_action_inserts_a_disable_next_line_comment_above_the_diagnostic() {
    assert_eq!(disable_next_line_comment("no_bare_urls"), "<!-- mq-content-lint-disable-next-line no_bare_urls -->\n");
    assert_eq!(disable_title("no_bare_urls"), "mq-content-lint: disable no_bare_urls for this line");
}

#[test]
fn fix_code_action_builds_a_workspace_edit_at_the_fixs_range() {
    assert_eq!(fix_title("no space after `#`"), "mq-content-lint: fix (no space after `#`)");
    let r = to_editor_range(Range { start_line: 1, start_column: 1, end_line: 1, end_column: 7 });
    assert_eq!(r, span(pos(0, 0), pos(0, 6)));
}

#[test]
fn position_in_range_matches_a_zero_width_range_at_its_single_point() {
    let range = span(pos(0, 5), pos(0, 5));
    assert!(position_in_range(range, pos(0, 5)));
    assert!(!position_in_range(range, pos(0, 4)));
    assert!(!position_in_range(range, pos(0, 6)));
}

#[test]
fn position_in_range_matches_inside_a_normal_span() {
    let range = span(pos(1, 2), pos(1, 8));
    assert!(position_in_range(range, pos(1, 2)));
    assert!(position_in_range(range, pos(1, 5)));
    assert!(position_in_range(range, pos(1, 8)));
    assert!(!position_in_range(range, pos(1, 9)));
    assert!(!position_in_range(range, pos(0, 5)));
}

#[test]
fn hover_text_includes_help_when_present() {
    let text = hover_text(
        Some("image_missing_alt"),
        "image `x.png` has no alt text",
        Some("describe the image's content or purpose in the alt text"),
    );
    assert!(text.contains("image_missing_alt"));
    assert!(text.contains("help:"));
}

#[test]
fn hover_text_omits_help_section_when_absent() {
    let text = hover_text(Some("no_todo"), "found a TODO", None);
    assert!(!text.contains("help:"));
    assert_eq!(text, "**no_todo**: found a TODO");
}
