//! Linter configuration, as read from a `mq-content-lint.toml` file.
//!
//! With no config file every built-in rule runs at its default severity. Each rule may be
//! switched off (`rule = false`), given another severity (`rule = "error"`), or configured with
//! a table holding `enabled`, `severity` and the rule's own option keys; an unknown rule name or
//! option key is a configuration error rather than something silently ignored.
use vstd::prelude::*;
use crate::message::{RuleId, spec_unknown_rule_message};
use crate::text::str_eq;
use crate::custom_rules::CustomRule;
use crate::Severity;

verus! {

/// The config file name looked for next to (and above) the linted files.
pub open spec fn spec_config_file_name() -> Seq<char> {
    "mq-content-lint.toml"@
}

/// The config file name looked for next to (and above) the linted files.
pub fn config_file_name() -> (r: &'static str)
    ensures
        r@ == spec_config_file_name(),
{
    "mq-content-lint.toml"
}

/// What looking for the config file does at one directory, walking up from the linted files.
#[derive(Debug, Clone, Copy, PartialEq, Eq, Structural)]
pub enum DiscoveryStep {
    /// The config file is here: load it.
    Load,
    /// It is not here: look in the parent directory.
    GoUp,
    /// It is not here and there is no parent: use the default configuration.
    UseDefault,
}

/// The discovery step at a directory: load the config file found there; else go up to the
/// parent; else, at the root, fall back to the default configuration.
pub fn discovery_step(found_here: bool, has_parent: bool) -> (r: DiscoveryStep)
    ensures
        r == (if found_here {
            DiscoveryStep::Load
        } else if has_parent {
            DiscoveryStep::GoUp
        } else {
            DiscoveryStep::UseDefault
        }),
{
    if found_here {
        DiscoveryStep::Load
    } else if has_parent {
        DiscoveryStep::GoUp
    } else {
        DiscoveryStep::UseDefault
    }
}

/// Per-rule setting: a plain enable/disable flag, or a severity override (which also implies
/// the rule is enabled).
#[derive(Debug, Clone, Copy, PartialEq, Eq, Structural)]
pub enum RuleSetting {
    Enabled(bool),
    Severity(Severity),
}

/// The value of a rule-specific option.
#[derive(Debug, Clone, PartialEq)]
pub enum OptionValue {
    Str(String),
    Int(i64),
    Bool(bool),
    StrList(Vec<String>),
}

/// One rule-specific option: `key = value` in the table of rule `rule`.
#[derive(Debug, Clone, PartialEq)]
pub struct RuleOption {
    pub rule: RuleId,
    pub key: String,
    pub value: OptionValue,
}

/// Resolved linter configuration.
#[derive(Debug, Clone)]
pub struct LintConfig {
    pub rules: Vec<(RuleId, RuleSetting)>,
    pub required_front_matter_keys: Vec<String>,
    pub options: Vec<RuleOption>,
    pub custom_rules: Vec<CustomRule>,
    pub ignore: Vec<String>,
    /// `max_line_length` from a project's `.editorconfig`, if one sets it.
    pub editorconfig_max_line_length: Option<usize>,
}

/// The rule-specific option keys each built-in rule reads.
pub open spec fn spec_option_keys(id: RuleId) -> Seq<Seq<char>> {
    match id {
        RuleId::HeadingStyle => seq!["style"@],
        RuleId::NoTrailingPunctuationHeading => seq!["punctuation"@],
        RuleId::ListMarkerSpace => seq!["spaces"@],
        RuleId::NoTrailingSpaces => seq!["br_spaces"@],
        RuleId::NoHardTabs => seq!["spaces"@],
        RuleId::NoMultipleBlanks => seq!["maximum"@],
        RuleId::LineLength => seq!["limit"@, "code_blocks"@],
        RuleId::CodeBlockStyle => seq!["style"@],
        RuleId::CodeFenceStyle => seq!["style"@],
        RuleId::LinkImageStyle => seq!["autolink"@, "inline"@, "full"@, "collapsed"@, "shortcut"@],
        RuleId::DescriptiveLinkText => seq!["forbidden"@],
        RuleId::EmphasisStyle => seq!["style"@],
        RuleId::StrongStyle => seq!["style"@],
        RuleId::UlStyle => seq!["style"@],
        RuleId::NoInlineHtml => seq!["allowed"@],
        RuleId::HrStyle => seq!["style"@],
        _ => Seq::empty(),
    }
}

/// The rule-specific option keys rule `id` reads from its `[rules.<id>]` table.
pub fn option_keys(id: RuleId) -> (r: Vec<&'static str>)
    ensures
        r@.map_values(|k: &'static str| k@) == spec_option_keys(id),
{
    let r: Vec<&'static str> = match id {
        RuleId::HeadingStyle => vec!["style"],
        RuleId::NoTrailingPunctuationHeading => vec!["punctuation"],
        RuleId::ListMarkerSpace => vec!["spaces"],
        RuleId::NoTrailingSpaces => vec!["br_spaces"],
        RuleId::NoHardTabs => vec!["spaces"],
        RuleId::NoMultipleBlanks => vec!["maximum"],
        RuleId::LineLength => vec!["limit", "code_blocks"],
        RuleId::CodeBlockStyle => vec!["style"],
        RuleId::CodeFenceStyle => vec!["style"],
        RuleId::LinkImageStyle => vec!["autolink", "inline", "full", "collapsed", "shortcut"],
        RuleId::DescriptiveLinkText => vec!["forbidden"],
        RuleId::EmphasisStyle => vec!["style"],
        RuleId::StrongStyle => vec!["style"],
        RuleId::UlStyle => vec!["style"],
        RuleId::NoInlineHtml => vec!["allowed"],
        RuleId::HrStyle => vec!["style"],
        _ => Vec::new(),
    };
    proof {
        assert(r@.map_values(|k: &'static str| k@) =~= spec_option_keys(id));
    }
    r
}

/// The settings held by an entry list, later entries overriding earlier ones.
pub open spec fn settings_of(entries: Seq<(RuleId, RuleSetting)>) -> Map<RuleId, RuleSetting>
    decreases entries.len(),
{
    if entries.len() == 0 {
        Map::empty()
    } else {
        settings_of(entries.drop_last()).insert(entries.last().0, entries.last().1)
    }
}

/// Whether a rule with `setting` runs.
pub open spec fn setting_enables(setting: Option<RuleSetting>) -> bool {
    match setting {
        Some(RuleSetting::Enabled(enabled)) => enabled,
        _ => true,
    }
}

/// The severity a rule with `setting` and default `default` reports at.
pub open spec fn setting_severity(setting: Option<RuleSetting>, default: Severity) -> Severity {
    match setting {
        Some(RuleSetting::Severity(s)) => s,
        _ => default,
    }
}

impl LintConfig {
    /// Each rule's setting, as the config file (and any later overrides) left it.
    pub open spec fn settings(&self) -> Map<RuleId, RuleSetting> {
        settings_of(self.rules@)
    }

    /// The configuration with no config file: no setting for any rule, no required front
    /// matter keys, no options, no custom rules, nothing ignored.
    pub fn new() -> (r: Self)
        ensures
            r.settings() == Map::<RuleId, RuleSetting>::empty(),
            r.required_front_matter_keys@.len() == 0,
            r.options@.len() == 0,
            r.custom_rules@.len() == 0,
            r.ignore@.len() == 0,
            r.editorconfig_max_line_length is None,
    {
        LintConfig {
            rules: Vec::new(),
            required_front_matter_keys: Vec::new(),
            options: Vec::new(),
            custom_rules: Vec::new(),
            ignore: Vec::new(),
            editorconfig_max_line_length: None,
        }
    }

    fn lookup(&self, rule_id: RuleId) -> (r: Option<RuleSetting>)
        ensures
            r == (if self.settings().contains_key(rule_id) {
                Some(self.settings()[rule_id])
            } else {
                None
            }),
    {
        let mut i = self.rules.len();
        proof {
            lemma_settings_split(self.rules@, i as int);
        }
        while i > 0
            invariant
                i <= self.rules@.len(),
                settings_of(self.rules@) =~= settings_of(self.rules@.take(i as int)).union_prefer_right(
                    settings_of(self.rules@.skip(i as int)),
                ),
                !settings_of(self.rules@.skip(i as int)).contains_key(rule_id),
            decreases i,
        {
            let (id, setting) = self.rules[i - 1];
            if id == rule_id {
                proof {
                    lemma_settings_split(self.rules@, i as int);
                    assert(self.rules@.take(i as int).drop_last() =~= self.rules@.take(i - 1));
                }
                return Some(setting);
            }
            proof {
                lemma_settings_split(self.rules@, (i - 1) as int);
                lemma_settings_split(self.rules@.skip(i - 1), 1);
                assert(self.rules@.skip(i - 1).take(1) =~= seq![self.rules@[i - 1]]);
                assert(self.rules@.skip(i - 1).skip(1) =~= self.rules@.skip(i as int));
                assert(settings_of(seq![self.rules@[i - 1]]) =~= Map::<RuleId, RuleSetting>::empty().insert(
                    id,
                    setting,
                )) by {
                    assert(seq![self.rules@[i - 1]].drop_last() =~= Seq::<(RuleId, RuleSetting)>::empty());
                    assert(seq![self.rules@[i - 1]].last() == self.rules@[i - 1]);
                    assert(self.rules@[i - 1] == (id, setting));
                    assert(settings_of(seq![self.rules@[i - 1]].drop_last()) =~= Map::<RuleId, RuleSetting>::empty());
                }
            }
            i = i - 1;
        }
        proof {
            assert(self.rules@.take(0) =~= Seq::<(RuleId, RuleSetting)>::empty());
        }
        None
    }

    /// Disables a rule, overriding whatever the config file said (the CLI's `--disable`).
    pub fn disable_rule(&mut self, rule_id: RuleId)
        ensures
            final(self).settings() == old(self).settings().insert(rule_id, RuleSetting::Enabled(false)),
            final(self).required_front_matter_keys@ == old(self).required_front_matter_keys@,
            final(self).options@ == old(self).options@,
            final(self).custom_rules@ == old(self).custom_rules@,
            final(self).ignore@ == old(self).ignore@,
            final(self).editorconfig_max_line_length == old(self).editorconfig_max_line_length,
    {
        let ghost before = self.rules@;
        self.rules.push((rule_id, RuleSetting::Enabled(false)));
        proof {
            assert(self.rules@.drop_last() =~= before);
        }
    }

    /// Sets `rule_id`'s setting, overriding any earlier one.
    pub fn set_rule(&mut self, rule_id: RuleId, setting: RuleSetting)
        ensures
            final(self).settings() == old(self).settings().insert(rule_id, setting),
            final(self).required_front_matter_keys@ == old(self).required_front_matter_keys@,
            final(self).options@ == old(self).options@,
            final(self).custom_rules@ == old(self).custom_rules@,
            final(self).ignore@ == old(self).ignore@,
            final(self).editorconfig_max_line_length == old(self).editorconfig_max_line_length,
    {
        let ghost before = self.rules@;
        self.rules.push((rule_id, setting));
        proof {
            assert(self.rules@.drop_last() =~= before);
        }
    }

    /// The setting configured for `rule_id`, if any.
    pub open spec fn spec_setting(&self, rule_id: RuleId) -> Option<RuleSetting> {
        if self.settings().contains_key(rule_id) {
            Some(self.settings()[rule_id])
        } else {
            None
        }
    }

    /// Returns `true` if the given rule should run.
    pub fn is_rule_enabled(&self, rule_id: RuleId) -> (r: bool)
        ensures
            r == setting_enables(self.spec_setting(rule_id)),
    {
        match self.lookup(rule_id) {
            Some(RuleSetting::Enabled(enabled)) => enabled,
            _ => true,
        }
    }

    /// The effective severity for a rule: a configured override if present, otherwise the
    /// rule's own default.
    pub fn severity_for(&self, rule_id: RuleId, default: Severity) -> (r: Severity)
        ensures
            r == setting_severity(self.spec_setting(rule_id), default),
    {
        match self.lookup(rule_id) {
            Some(RuleSetting::Severity(severity)) => severity,
            _ => default,
        }
    }
}

pub proof fn lemma_settings_split(entries: Seq<(RuleId, RuleSetting)>, i: int)
    requires
        0 <= i <= entries.len(),
    ensures
        settings_of(entries) =~= settings_of(entries.take(i)).union_prefer_right(
            settings_of(entries.skip(i)),
        ),
    decreases entries.len() - i,
{
    if i == entries.len() {
        assert(entries.take(i) =~= entries);
        assert(entries.skip(i) =~= Seq::<(RuleId, RuleSetting)>::empty());
    } else {
        lemma_settings_split(entries, i + 1);
        let rest = entries.skip(i);
        assert(rest.drop_last() =~= entries.subrange(i, entries.len() - 1));
        lemma_settings_split_last(entries, i);
    }
}

proof fn lemma_settings_split_last(entries: Seq<(RuleId, RuleSetting)>, i: int)
    requires
        0 <= i < entries.len(),
        settings_of(entries) =~= settings_of(entries.take(i + 1)).union_prefer_right(
            settings_of(entries.skip(i + 1)),
        ),
    ensures
        settings_of(entries) =~= settings_of(entries.take(i)).union_prefer_right(
            settings_of(entries.skip(i)),
        ),
    decreases entries.len() - i,
{
    lemma_settings_prepend(entries.skip(i));
    assert(entries.skip(i).skip(1) =~= entries.skip(i + 1));
    assert(entries.take(i + 1).drop_last() =~= entries.take(i));
    assert(entries.take(i + 1).last() == entries[i]);
    assert(entries.skip(i)[0] == entries[i]);
}

/// Settings of a list whose first entry is followed by the rest.
proof fn lemma_settings_prepend(entries: Seq<(RuleId, RuleSetting)>)
    requires
        entries.len() > 0,
    ensures
        settings_of(entries) =~= Map::<RuleId, RuleSetting>::empty().insert(entries[0].0, entries[0].1).union_prefer_right(
            settings_of(entries.skip(1)),
        ),
    decreases entries.len(),
{
    if entries.len() == 1 {
        assert(entries.skip(1) =~= Seq::<(RuleId, RuleSetting)>::empty());
        assert(entries.drop_last() =~= Seq::<(RuleId, RuleSetting)>::empty());
    } else {
        lemma_settings_prepend(entries.drop_last());
        assert(entries.drop_last().skip(1) =~= entries.skip(1).drop_last());
        assert(entries.skip(1).last() == entries.last());
        assert(entries.drop_last()[0] == entries[0]);
    }
}

/// The value of option `key` in rule `rule`'s table: that of the first entry for them.
pub open spec fn spec_option(options: Seq<RuleOption>, rule: RuleId, key: Seq<char>) -> Option<
    OptionValue,
>
    decreases options.len(),
{
    if options.len() == 0 {
        None
    } else if options[0].rule == rule && options[0].key@ == key {
        Some(options[0].value)
    } else {
        spec_option(options.drop_first(), rule, key)
    }
}

/// An integer option read as a count: a non-negative integer that fits in `usize`.
pub open spec fn as_count(v: Option<OptionValue>) -> Option<usize> {
    match v {
        Some(OptionValue::Int(i)) => if 0 <= i && i <= usize::MAX {
            Some(i as usize)
        } else {
            None
        },
        _ => None,
    }
}

/// A boolean option.
pub open spec fn as_flag(v: Option<OptionValue>) -> Option<bool> {
    match v {
        Some(OptionValue::Bool(b)) => Some(b),
        _ => None,
    }
}

/// A string option.
pub open spec fn as_text(v: Option<OptionValue>) -> Option<Seq<char>> {
    match v {
        Some(OptionValue::Str(s)) => Some(s@),
        _ => None,
    }
}

/// A string-list option.
pub open spec fn as_text_list(v: Option<OptionValue>) -> Option<Seq<Seq<char>>> {
    match v {
        Some(OptionValue::StrList(l)) => Some(l@.map_values(|s: String| s@)),
        _ => None,
    }
}

impl LintConfig {
    /// The value of option `key` of rule `rule`, if the configuration sets it.
    pub open spec fn spec_rule_option(&self, rule: RuleId, key: Seq<char>) -> Option<OptionValue> {
        spec_option(self.options@, rule, key)
    }

    /// The value of option `key` of rule `rule`, if the configuration sets it.
    pub fn rule_option(&self, rule: RuleId, key: &str) -> (r: Option<&OptionValue>)
        ensures
            r matches Some(v) ==> self.spec_rule_option(rule, key@) == Some(*v),
            r is None ==> self.spec_rule_option(rule, key@) is None,
    {
        let mut i: usize = 0;
        proof {
            assert(self.options@.skip(0) =~= self.options@);
        }
        while i < self.options.len()
            invariant
                i <= self.options@.len(),
                spec_option(self.options@, rule, key@) == spec_option(
                    self.options@.skip(i as int),
                    rule,
                    key@,
                ),
            decreases self.options@.len() - i,
        {
            let o = &self.options[i];
            proof {
                assert(self.options@.skip(i as int)[0] == self.options@[i as int]);
                assert(self.options@.skip(i as int).drop_first() =~= self.options@.skip(i + 1));
            }
            if o.rule == rule && str_eq(o.key.as_str(), key) {
                return Some(&o.value);
            }
            i = i + 1;
        }
        None
    }

    /// Option `key` of rule `rule` as a count.
    pub fn get_usize(&self, rule: RuleId, key: &str) -> (r: Option<usize>)
        ensures
            r == as_count(self.spec_rule_option(rule, key@)),
    {
        match self.rule_option(rule, key) {
            Some(OptionValue::Int(i)) => {
                let i = *i;
                if 0 <= i && (i as u64) <= (usize::MAX as u64) {
                    Some(i as usize)
                } else {
                    None
                }
            },
            _ => None,
        }
    }

    /// Option `key` of rule `rule` as a boolean.
    pub fn get_bool(&self, rule: RuleId, key: &str) -> (r: Option<bool>)
        ensures
            r == as_flag(self.spec_rule_option(rule, key@)),
    {
        match self.rule_option(rule, key) {
            Some(OptionValue::Bool(b)) => Some(*b),
            _ => None,
        }
    }

    /// Option `key` of rule `rule` as a string.
    pub fn get_str(&self, rule: RuleId, key: &str) -> (r: Option<String>)
        ensures
            r matches Some(s) ==> as_text(self.spec_rule_option(rule, key@)) == Some(s@),
            r is None ==> as_text(self.spec_rule_option(rule, key@)) is None,
    {
        match self.rule_option(rule, key) {
            Some(OptionValue::Str(s)) => Some(s.clone()),
            _ => None,
        }
    }

    /// Option `key` of rule `rule` as a list of strings.
    pub fn get_str_array(&self, rule: RuleId, key: &str) -> (r: Option<Vec<String>>)
        ensures
            r matches Some(l) ==> as_text_list(self.spec_rule_option(rule, key@)) == Some(
                l@.map_values(|s: String| s@),
            ),
            r is None ==> as_text_list(self.spec_rule_option(rule, key@)) is None,
    {
        match self.rule_option(rule, key) {
            Some(OptionValue::StrList(l)) => {
                let mut out: Vec<String> = Vec::new();
                let mut i: usize = 0;
                while i < l.len()
                    invariant
                        i <= l@.len(),
                        out@.map_values(|s: String| s@) == l@.take(i as int).map_values(
                            |s: String| s@,
                        ),
                    decreases l@.len() - i,
                {
                    let c = l[i].clone();
                    let ghost before = out@.map_values(|s: String| s@);
                    out.push(c);
                    proof {
                        assert(out@.map_values(|s: String| s@) =~= before.push(c@));
                        assert(l@.take(i + 1).map_values(|s: String| s@) =~= l@.take(
                            i as int,
                        ).map_values(|s: String| s@).push(l@[i as int]@));
                        assert(out@.map_values(|s: String| s@) =~= l@.take(i + 1).map_values(
                            |s: String| s@,
                        ));
                    }
                    i = i + 1;
                }
                proof {
                    assert(l@.take(l@.len() as int) =~= l@);
                }
                Some(out)
            },
            _ => None,
        }
    }
}

impl Default for LintConfig {
    /// The configuration with no config file (see [`LintConfig::new`]).
    fn default() -> (r: Self)
        ensures
            r.settings() == Map::<RuleId, RuleSetting>::empty(),
            r.required_front_matter_keys@.len() == 0,
            r.options@.len() == 0,
            r.custom_rules@.len() == 0,
            r.ignore@.len() == 0,
            r.editorconfig_max_line_length is None,
    {
        LintConfig::new()
    }
}

/// The severity a config file names: `info`, `warning` or `error`.
pub open spec fn spec_severity_named(s: Seq<char>) -> Option<Severity> {
    if s == "info"@ {
        Some(Severity::Info)
    } else if s == "warning"@ {
        Some(Severity::Warning)
    } else if s == "error"@ {
        Some(Severity::Error)
    } else {
        None
    }
}

/// The severity a config file names.
pub fn severity_named(s: &str) -> (r: Option<Severity>)
    ensures
        r == spec_severity_named(s@),
{
    if str_eq(s, "info") {
        Some(Severity::Info)
    } else if str_eq(s, "warning") {
        Some(Severity::Warning)
    } else if str_eq(s, "error") {
        Some(Severity::Error)
    } else {
        None
    }
}

/// The rule whose name is `s`, if any.
pub open spec fn named_rule(s: Seq<char>) -> Option<RuleId> {
    if exists|id: RuleId| id.spec_name() == s {
        Some(choose|id: RuleId| id.spec_name() == s)
    } else {
        None
    }
}

/// What a config file gives for one rule under `[rules]`: `rule = true`/`false`,
/// `rule = "<severity>"`, or a `[rules.<rule>]` table of `enabled`, `severity` and the rule's
/// own option keys.
#[derive(Debug, Clone, PartialEq)]
pub enum RuleEntry {
    Flag(bool),
    Level(String),
    Table(Vec<(String, OptionValue)>),
}

/// The contents of a config file.
#[derive(Debug, Clone, PartialEq)]
pub struct FileConfig {
    /// The `[rules]` entries, in file order.
    pub rules: Vec<(String, RuleEntry)>,
    /// `[front_matter] required_keys`.
    pub required_keys: Vec<String>,
    /// The `[[custom_rules]]` entries.
    pub custom_rules: Vec<CustomRule>,
    /// The `ignore` glob patterns.
    pub ignore: Vec<String>,
}

/// The error for a severity a config file names that is not one.
pub open spec fn invalid_severity_message(rule: Seq<char>, s: Seq<char>) -> Seq<char> {
    "invalid severity `"@ + s + "` for rule `"@ + rule + "` (expected info, warning or error)"@
}

/// The error for an option key a rule does not read.
pub open spec fn unknown_option_message(rule: Seq<char>, key: Seq<char>) -> Seq<char> {
    "unknown option `"@ + key + "` for rule `"@ + rule + "`"@
}

/// The error for an `enabled` or `severity` of the wrong type.
pub open spec fn wrong_type_message(rule: Seq<char>, key: Seq<char>) -> Seq<char> {
    "option `"@ + key + "` of rule `"@ + rule + "` has the wrong type"@
}

/// Reads a rule's option table: the last `enabled` and `severity` given, and the rule's own
/// options in order; or the first error.
pub open spec fn read_table(id: RuleId, t: Seq<(String, OptionValue)>) -> Result<
    (Option<bool>, Option<Severity>, Seq<RuleOption>),
    Seq<char>,
>
    decreases t.len(),
{
    if t.len() == 0 {
        Ok((None, None, Seq::empty()))
    } else {
        match read_table(id, t.drop_last()) {
            Err(e) => Err(e),
            Ok((en, sev, opts)) => {
                let k = t.last().0;
                let v = t.last().1;
                if k@ == "enabled"@ {
                    match v {
                        OptionValue::Bool(b) => Ok((Some(b), sev, opts)),
                        _ => Err(wrong_type_message(id.spec_name(), k@)),
                    }
                } else if k@ == "severity"@ {
                    match v {
                        OptionValue::Str(s) => match spec_severity_named(s@) {
                            Some(x) => Ok((en, Some(x), opts)),
                            None => Err(invalid_severity_message(id.spec_name(), s@)),
                        },
                        _ => Err(wrong_type_message(id.spec_name(), k@)),
                    }
                } else if spec_option_keys(id).contains(k@) {
                    Ok((en, sev, opts.push(RuleOption { rule: id, key: k, value: v })))
                } else {
                    Err(unknown_option_message(id.spec_name(), k@))
                }
            },
        }
    }
}

/// The setting an option table gives: off when `enabled = false`, else its severity if one is
/// given, else on when `enabled = true`, else none.
pub open spec fn table_setting(en: Option<bool>, sev: Option<Severity>) -> Option<RuleSetting> {
    match (en, sev) {
        (Some(false), _) => Some(RuleSetting::Enabled(false)),
        (_, Some(s)) => Some(RuleSetting::Severity(s)),
        (Some(true), None) => Some(RuleSetting::Enabled(true)),
        (None, None) => None,
    }
}

/// Reads one `[rules]` entry: its rule, its setting (if any) and its options; or the error.
pub open spec fn read_entry(name: Seq<char>, e: RuleEntry) -> Result<
    (RuleId, Option<RuleSetting>, Seq<RuleOption>),
    Seq<char>,
> {
    match named_rule(name) {
        None => Err(spec_unknown_rule_message(name)),
        Some(id) => match e {
            RuleEntry::Flag(b) => Ok((id, Some(RuleSetting::Enabled(b)), Seq::empty())),
            RuleEntry::Level(s) => match spec_severity_named(s@) {
                Some(x) => Ok((id, Some(RuleSetting::Severity(x)), Seq::empty())),
                None => Err(invalid_severity_message(name, s@)),
            },
            RuleEntry::Table(t) => match read_table(id, t@) {
                Err(m) => Err(m),
                Ok((en, sev, opts)) => Ok((id, table_setting(en, sev), opts)),
            },
        },
    }
}

/// Reads the `[rules]` entries in order: the settings and the options they give, or the first
/// error.
pub open spec fn read_rules(entries: Seq<(String, RuleEntry)>) -> Result<
    (Seq<(RuleId, RuleSetting)>, Seq<RuleOption>),
    Seq<char>,
>
    decreases entries.len(),
{
    if entries.len() == 0 {
        Ok((Seq::empty(), Seq::empty()))
    } else {
        match read_rules(entries.drop_last()) {
            Err(m) => Err(m),
            Ok((settings, opts)) => match read_entry(entries.last().0@, entries.last().1) {
                Err(m) => Err(m),
                Ok((id, setting, more)) => Ok(
                    (
                        match setting {
                            Some(st) => settings.push((id, st)),
                            None => settings,
                        },
                        opts + more,
                    ),
                ),
            },
        }
    }
}

/// An error in the first `n` entries of an option table is the table's error.
proof fn lemma_read_table_err(id: RuleId, t: Seq<(String, OptionValue)>, n: int)
    requires
        0 <= n <= t.len(),
        read_table(id, t.take(n)) is Err,
    ensures
        read_table(id, t) == read_table(id, t.take(n)),
    decreases t.len() - n,
{
    if n < t.len() {
        assert(t.take(n + 1).drop_last() =~= t.take(n));
        lemma_read_table_err(id, t, n + 1);
    } else {
        assert(t.take(n) =~= t);
    }
}

/// An error in the first `n` entries of `[rules]` is the error of them all.
proof fn lemma_read_rules_err(entries: Seq<(String, RuleEntry)>, n: int)
    requires
        0 <= n <= entries.len(),
        read_rules(entries.take(n)) is Err,
    ensures
        read_rules(entries) == read_rules(entries.take(n)),
    decreases entries.len() - n,
{
    if n < entries.len() {
        assert(entries.take(n + 1).drop_last() =~= entries.take(n));
        lemma_read_rules_err(entries, n + 1);
    } else {
        assert(entries.take(n) =~= entries);
    }
}

proof fn lemma_named_rule(id: RuleId)
    ensures
        named_rule(id.spec_name()) == Some(id),
{
    assert(exists|x: RuleId| x.spec_name() == id.spec_name());
    let c = choose|x: RuleId| x.spec_name() == id.spec_name();
    crate::message::lemma_rule_names_distinct(c, id);
}

/// Reads one rule's option table.
fn read_table_exec(id: RuleId, t: Vec<(String, OptionValue)>) -> (r: Result<
    (Option<bool>, Option<Severity>, Vec<RuleOption>),
    String,
>)
    ensures
        match read_table(id, t@) {
            Ok((en, sev, opts)) => r matches Ok((e2, s2, o2)) && e2 == en && s2 == sev && o2@
                == opts,
            Err(m) => r matches Err(m2) && m2@ == m,
        },
{
    let mut rest = t;
    let ghost orig = rest@;
    let total = rest.len();
    let mut en: Option<bool> = None;
    let mut sev: Option<Severity> = None;
    let mut opts: Vec<RuleOption> = Vec::new();
    let mut k: usize = 0;
    let keys = option_keys(id);
    while rest.len() > 0
        invariant
            k <= orig.len(),
            orig.len() <= usize::MAX,
            rest@ == orig.skip(k as int),
            orig == t@,
            keys@.map_values(|s: &'static str| s@) == spec_option_keys(id),
            read_table(id, orig.take(k as int)) == Ok::<
                (Option<bool>, Option<Severity>, Seq<RuleOption>),
                Seq<char>,
            >((en, sev, opts@)),
        decreases rest@.len(),
    {
        let (key, value) = rest.remove(0);
        proof {
            assert(orig.skip(k as int)[0] == orig[k as int]);
            assert(orig.skip(k as int).remove(0) =~= orig.skip(k + 1));
            assert(orig.take(k + 1).drop_last() =~= orig.take(k as int));
            assert(orig.take(k + 1).last() == orig[k as int]);
            reveal_strlit("enabled");
            reveal_strlit("severity");
        }
        if str_eq(key.as_str(), "enabled") {
            match value {
                OptionValue::Bool(b) => {
                    en = Some(b);
                },
                _ => {
                    let mut m = String::from_str("option `");
                    m.append(key.as_str());
                    m.append("` of rule `");
                    m.append(id.as_str());
                    m.append("` has the wrong type");
                    proof {
                        assert(m@ == wrong_type_message(id.spec_name(), key@));
                        assert(read_table(id, orig.take(k + 1)) == Err::<(Option<bool>, Option<Severity>, Seq<RuleOption>), Seq<char>>(m@));
                        lemma_read_table_err(id, orig, k + 1);
                    }
return Err(m);
                },
            }
        } else if str_eq(key.as_str(), "severity") {
            match value {
                OptionValue::Str(s) => match severity_named(s.as_str()) {
                    Some(x) => {
                        sev = Some(x);
                    },
                    None => {
                        let mut m = String::from_str("invalid severity `");
                        m.append(s.as_str());
                        m.append("` for rule `");
                        m.append(id.as_str());
                        m.append("` (expected info, warning or error)");
                        proof {
    lemma_read_table_err(id, orig, k + 1);
}
return Err(m);
                    },
                },
                _ => {
                    let mut m = String::from_str("option `");
                    m.append(key.as_str());
                    m.append("` of rule `");
                    m.append(id.as_str());
                    m.append("` has the wrong type");
                    proof {
                        assert(m@ == wrong_type_message(id.spec_name(), key@));
                        assert(read_table(id, orig.take(k + 1)) == Err::<(Option<bool>, Option<Severity>, Seq<RuleOption>), Seq<char>>(m@));
                        lemma_read_table_err(id, orig, k + 1);
                    }
return Err(m);
                },
            }
        } else {
            let mut known = false;
            let mut q: usize = 0;
            while q < keys.len()
                invariant
                    q <= keys@.len(),
                    keys@.map_values(|s: &'static str| s@) == spec_option_keys(id),
                    known == exists|j: int| 0 <= j < q && keys@[j]@ == key@,
                decreases keys@.len() - q,
            {
                let same = str_eq(keys[q], key.as_str());
                proof {
                    if same {
                        assert(keys@[q as int]@ == key@);
                    }
                }
                known = known || same;
                q = q + 1;
            }
            proof {
                let ks = keys@.map_values(|s: &'static str| s@);
                if known {
                    let j = choose|j: int| 0 <= j < keys@.len() && keys@[j]@ == key@;
                    assert(ks[j] == key@);
                } else {
                    assert forall|j: int| 0 <= j < ks.len() implies ks[j] != key@ by {
                        assert(ks[j] == keys@[j]@);
                    }
                }
            }
            if !known {
                let mut m = String::from_str("unknown option `");
                m.append(key.as_str());
                m.append("` for rule `");
                m.append(id.as_str());
                m.append("`");
                proof {
                    assert(m@ == unknown_option_message(id.spec_name(), key@));
                    assert(!spec_option_keys(id).contains(key@));
                    assert(read_table(id, orig.take(k + 1)) == Err::<(Option<bool>, Option<Severity>, Seq<RuleOption>), Seq<char>>(m@));
                    lemma_read_table_err(id, orig, k + 1);
                }
return Err(m);
            }
            opts.push(RuleOption { rule: id, key, value });
        }
        k = k + 1;
    }
    proof {
        assert(orig.take(k as int) =~= orig);
    }
    Ok((en, sev, opts))
}

impl LintConfig {
    /// The configuration a config file's contents give: each `[rules]` entry's setting (an
    /// option table without `enabled` or `severity` gives none) and options, the required
    /// front matter keys, the custom rules and the ignore patterns. An unknown rule name, an
    /// unknown option key, a severity that is not `info`, `warning` or `error`, or an `enabled`
    /// or `severity` of the wrong type is an error.
    pub fn from_file_config(file: FileConfig) -> (r: Result<LintConfig, String>)
        requires
            forall|i: int| 0 <= i < file.rules@.len() ==> (#[trigger] file.rules@[i]).0@.len() < usize::MAX,
        ensures
            match read_rules(file.rules@) {
                Ok((settings, options)) => r matches Ok(c) && c.rules@ == settings && c.options@
                    == options && c.required_front_matter_keys == file.required_keys
                    && c.custom_rules == file.custom_rules && c.ignore == file.ignore
                    && c.editorconfig_max_line_length is None,
                Err(m) => r matches Err(m2) && m2@ == m,
            },
    {
        let FileConfig { rules, required_keys, custom_rules, ignore } = file;
        let mut entries = rules;
        let ghost orig = entries@;
        let total = entries.len();
        let mut settings: Vec<(RuleId, RuleSetting)> = Vec::new();
        let mut options: Vec<RuleOption> = Vec::new();
        let mut k: usize = 0;
        while entries.len() > 0
            invariant
                k <= orig.len(),
                orig.len() <= usize::MAX,
                entries@ == orig.skip(k as int),
                orig == file.rules@,
                forall|i: int| 0 <= i < orig.len() ==> (#[trigger] orig[i]).0@.len() < usize::MAX,
                read_rules(orig.take(k as int)) == Ok::<
                    (Seq<(RuleId, RuleSetting)>, Seq<RuleOption>),
                    Seq<char>,
                >((settings@, options@)),
            decreases entries@.len(),
        {
            let (name, entry) = entries.remove(0);
            proof {
                assert(orig.skip(k as int)[0] == orig[k as int]);
                assert(orig.skip(k as int).remove(0) =~= orig.skip(k + 1));
                assert(orig.take(k + 1).drop_last() =~= orig.take(k as int));
                assert(orig.take(k + 1).last() == orig[k as int]);
            }
            let id = match RuleId::parse(name.as_str()) {
                Ok(id) => {
                    proof {
                        lemma_named_rule(id);
                    }
                    id
                },
                Err(m) => {
                    proof {
                        assert(named_rule(name@) is None);
                    }
                    proof {
    lemma_read_rules_err(orig, k + 1);
}
return Err(m);
                },
            };
            match entry {
                RuleEntry::Flag(b) => {
                    settings.push((id, RuleSetting::Enabled(b)));
                    proof {
                        assert(options@ + Seq::<RuleOption>::empty() =~= options@);
                    }
                },
                RuleEntry::Level(s) => match severity_named(s.as_str()) {
                    Some(x) => {
                        settings.push((id, RuleSetting::Severity(x)));
                        proof {
                            assert(options@ + Seq::<RuleOption>::empty() =~= options@);
                        }
                    },
                    None => {
                        let mut m = String::from_str("invalid severity `");
                        m.append(s.as_str());
                        m.append("` for rule `");
                        m.append(name.as_str());
                        m.append("` (expected info, warning or error)");
                        proof {
    lemma_read_rules_err(orig, k + 1);
}
return Err(m);
                    },
                },
                RuleEntry::Table(t) => match read_table_exec(id, t) {
                    Err(m) => {
                        proof {
    lemma_read_rules_err(orig, k + 1);
}
return Err(m);
                    },
                    Ok((en, sev, more)) => {
                        let setting = match (en, sev) {
                            (Some(false), _) => Some(RuleSetting::Enabled(false)),
                            (_, Some(s)) => Some(RuleSetting::Severity(s)),
                            (Some(true), None) => Some(RuleSetting::Enabled(true)),
                            (None, None) => None,
                        };
                        match setting {
                            Some(st) => settings.push((id, st)),
                            None => {},
                        }
                        let mut more = more;
                        options.append(&mut more);
                    },
                },
            }
            k = k + 1;
        }
        proof {
            assert(orig.take(k as int) =~= orig);
        }
        Ok(
            LintConfig {
                rules: settings,
                required_front_matter_keys: required_keys,
                options,
                custom_rules,
                ignore,
                editorconfig_max_line_length: None,
            },
        )
    }
}

} // verus!
