use mq_content_lint::config::{discovery_step, DiscoveryStep, LintConfig, RuleSetting};
use mq_content_lint::{RuleId, Severity};

#[test]
fn default_config_enables_all_rules_at_default_severity() {
    let config = LintConfig::default();
    for id in RuleId::ALL.iter() {
        assert!(config.is_rule_enabled(*id));
    }
    assert!(config.required_front_matter_keys.is_empty());
}

#[test]
fn disabling_a_rule_turns_it_off_and_leaves_others_on() {
    let mut config = LintConfig::default();
    config.disable_rule(RuleId::ImageMissingAlt);
    assert!(!config.is_rule_enabled(RuleId::ImageMissingAlt));
    assert!(config.is_rule_enabled(RuleId::HeadingHierarchySkip));
}

#[test]
fn a_severity_setting_overrides_the_default_and_keeps_the_rule_on() {
    let mut config = LintConfig::default();
    config.set_rule(RuleId::HeadingHierarchySkip, RuleSetting::Severity(Severity::Error));
    assert!(config.is_rule_enabled(RuleId::HeadingHierarchySkip));
    assert_eq!(config.severity_for(RuleId::HeadingHierarchySkip, Severity::Warning), Severity::Error);
    assert_eq!(config.severity_for(RuleId::ImageMissingAlt, Severity::Warning), Severity::Warning);
}

#[test]
fn a_later_setting_overrides_an_earlier_one() {
    let mut config = LintConfig::default();
    config.set_rule(RuleId::LineLength, RuleSetting::Enabled(false));
    config.set_rule(RuleId::LineLength, RuleSetting::Enabled(true));
    assert!(config.is_rule_enabled(RuleId::LineLength));
    config.disable_rule(RuleId::LineLength);
    assert!(!config.is_rule_enabled(RuleId::LineLength));
}

#[test]
fn discovery_loads_here_else_goes_up_else_uses_the_default() {
    assert_eq!(discovery_step(true, true), DiscoveryStep::Load);
    assert_eq!(discovery_step(true, false), DiscoveryStep::Load);
    assert_eq!(discovery_step(false, true), DiscoveryStep::GoUp);
    assert_eq!(discovery_step(false, false), DiscoveryStep::UseDefault);
}
