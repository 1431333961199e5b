use mq_content_lint::cache::{hash_content, LintCache};
use mq_content_lint::report_item::{CachedDiagnostic, ReportItem};
use mq_content_lint::{Range, Severity};

fn diagnostic(rule_id: &str, message: &str) -> ReportItem {
    ReportItem::Cached(CachedDiagnostic {
        rule_id: rule_id.to_string(),
        severity: Severity::Warning,
        message: message.to_string(),
        help: None,
        range: Some(Range::single_line(1, 1, 5)),
        fix: None,
    })
}

fn fresh(fingerprint: u64) -> LintCache {
    LintCache::new(".cache.json".to_string(), "1.0.0".to_string(), fingerprint)
}

#[test]
fn get_misses_on_an_empty_cache() {
    let cache = fresh(1);
    assert!(cache.get("a.md", "content").is_none());
}

#[test]
fn set_then_get_round_trips() {
    let mut cache = fresh(1);
    cache.set("a.md", "# Title\n", &vec![diagnostic("no_todo", "found a TODO")]);
    let hit = cache.get("a.md", "# Title\n").unwrap();
    assert_eq!(hit.len(), 1);
    assert_eq!(hit[0].rule_id(), "no_todo");
    assert_eq!(hit[0].text(), "found a TODO");
}

#[test]
fn get_misses_once_the_files_content_changes() {
    let mut cache = fresh(1);
    cache.set("a.md", "# Title\n", &vec![diagnostic("no_todo", "found a TODO")]);
    assert!(cache.get("a.md", "# Different\n").is_none());
}

#[test]
fn save_is_a_noop_when_nothing_was_ever_set() {
    let cache = fresh(1);
    assert!(!cache.is_dirty());
}

#[test]
fn save_then_load_round_trips_to_disk() {
    let mut cache = fresh(42);
    cache.set("a.md", "# Title\n", &vec![diagnostic("no_todo", "found a TODO")]);
    assert!(cache.is_dirty());
    let stored = cache.to_stored();
    let reloaded = LintCache::restore(".cache.json".to_string(), "1.0.0".to_string(), 42, Some(stored));
    let hit = reloaded.get("a.md", "# Title\n").unwrap();
    assert_eq!(hit[0].text(), "found a TODO");
    assert!(!reloaded.is_dirty());
}

#[test]
fn load_discards_a_cache_from_a_different_config_fingerprint() {
    let mut cache = fresh(1);
    cache.set("a.md", "# Title\n", &vec![diagnostic("no_todo", "found a TODO")]);
    let reloaded = LintCache::restore(".cache.json".to_string(), "1.0.0".to_string(), 2, Some(cache.to_stored()));
    assert!(reloaded.get("a.md", "# Title\n").is_none());
}

#[test]
fn a_cache_from_another_tool_version_is_discarded() {
    let mut cache = fresh(1);
    cache.set("a.md", "# Title\n", &vec![diagnostic("no_todo", "found a TODO")]);
    let reloaded = LintCache::restore(".cache.json".to_string(), "2.0.0".to_string(), 1, Some(cache.to_stored()));
    assert!(reloaded.get("a.md", "# Title\n").is_none());
}

#[test]
fn setting_what_is_already_cached_keeps_the_cache_clean() {
    let mut cache = fresh(1);
    cache.set("a.md", "# Title\n", &vec![diagnostic("no_todo", "found a TODO")]);
    let reloaded_stored = cache.to_stored();
    let mut reloaded = LintCache::restore(".cache.json".to_string(), "1.0.0".to_string(), 1, Some(reloaded_stored));
    reloaded.set("a.md", "# Title\n", &vec![diagnostic("no_todo", "found a TODO")]);
    assert!(!reloaded.is_dirty());
    reloaded.set("a.md", "# Title\n", &vec![diagnostic("no_todo", "found two TODOs")]);
    assert!(reloaded.is_dirty());
}

#[test]
fn the_content_hash_depends_on_the_content() {
    assert_eq!(hash_content("# Title\n"), hash_content("# Title\n"));
    assert_ne!(hash_content("# Title\n"), hash_content("# Other\n"));
}

#[test]
fn cached_findings_keep_what_a_report_shows() {
    let item = diagnostic("no_todo", "found a TODO");
    let kept = CachedDiagnostic::of(&item);
    assert_eq!(kept.rule_id, "no_todo");
    assert_eq!(kept.message, "found a TODO");
    assert_eq!(kept.range, Some(Range::single_line(1, 1, 5)));
}

#[test]
fn set_keeps_the_caches_path() {
    let mut cache = fresh(7);
    cache.set("a.md", "# Title\n", &vec![diagnostic("no_todo", "found a TODO")]);
    cache.set("b.md", "# Other\n", &vec![]);
    assert_eq!(cache.path(), fresh(7).path());
    assert!(cache.is_dirty());
}
