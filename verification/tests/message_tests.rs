use mq_content_lint::message::closest_rule_id;
use mq_content_lint::{LintMessage, RuleId};

#[test]
fn rule_id_round_trips_through_str() {
    for id in RuleId::ALL.iter() {
        assert_eq!(id.as_str().parse::<RuleId>().unwrap(), *id);
    }
}

#[test]
fn rule_id_from_str_rejects_unknown() {
    assert!("not_a_real_rule".parse::<RuleId>().is_err());
}

#[test]
fn rule_id_from_str_suggests_a_close_typo() {
    let err = "line_lenght".parse::<RuleId>().unwrap_err();
    assert!(err.contains("did you mean `line_length`?"), "unexpected error message: {err}");
}

#[test]
fn rule_id_from_str_does_not_suggest_for_an_unrelated_string() {
    let err = "xyzabc123".parse::<RuleId>().unwrap_err();
    assert!(!err.contains("did you mean"), "unexpected error message: {err}");
}

#[test]
fn closest_rule_id_finds_every_rule_ids_own_typo_of_itself() {
    for id in RuleId::ALL.iter() {
        let name = id.as_str();
        let truncated = &name[..name.len() - 1];
        assert_eq!(closest_rule_id(truncated), Some(*id), "truncating {name} to {truncated} should still suggest {name}");
    }
}

#[test]
fn all_rule_ids_are_unique() {
    let mut ids: Vec<&str> = RuleId::ALL.iter().map(|id| id.as_str()).collect();
    let count = ids.len();
    ids.sort_unstable();
    ids.dedup();
    assert_eq!(ids.len(), count, "duplicate rule id string");
}

#[test]
fn every_rule_id_has_a_non_empty_description() {
    for id in RuleId::ALL.iter() {
        assert!(!id.description().is_empty(), "{} has no description", id.as_str());
    }
}

#[test]
fn message_rule_id_matches_intent() {
    let msg = LintMessage::HeadingHierarchySkip { from: 1, to: 3 };
    assert_eq!(msg.rule_id(), RuleId::HeadingHierarchySkip);
    assert_eq!(msg.text(), "heading level jumps from h1 to h3, skipping a level");
    assert!(msg.help().unwrap().contains("h2"));
}

#[test]
fn unknown_rule_error_names_the_input() {
    let err = "nope".parse::<RuleId>().unwrap_err();
    assert!(err.contains("nope"), "unexpected error message: {err}");
}
