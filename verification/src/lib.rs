//! Static content linter for Markdown documents.
//!
//! The library inspects the *content* of a Markdown document — heading structure, list and
//! table consistency, whitespace, link/image hygiene, required front matter — with a set of
//! built-in rules that read the document's node list (as parsed by `mq-markdown`) and its raw
//! source text. Each finding is a [`Diagnostic`]; many carry a [`Fix`] that `apply_fixes`
//! applies to the source.
pub mod cache;
pub mod catalog;
pub mod config;
pub mod custom_rules;
pub mod disable_comments;
pub mod doc;
pub mod editor;
pub mod rules;
pub mod runner;
pub mod fix;
pub mod laws;
pub mod rule_laws;
pub mod report;
pub mod report_item;
pub mod message;
pub mod text;
pub mod text_report;

pub use config::LintConfig;
pub use doc::Document;
pub use message::{LintMessage, RuleId};

use config::setting_enables;
use config::setting_severity;
use message::spec_all_rule_ids;
use rules::{all_at_severity, concat_upto, sort_views, spec_check, spec_default_severity};

use vstd::prelude::*;

verus! {

/// Severity level for a lint diagnostic, ordered least to most severe.
#[derive(Debug, Clone, Copy, PartialEq, Eq, Structural, Hash, PartialOrd, Ord)]
pub enum Severity {
    Info,
    Warning,
    Error,
}

impl Severity {
    /// The rank of a severity: `Info < Warning < Error`.
    pub open spec fn rank(self) -> int {
        match self {
            Severity::Info => 0,
            Severity::Warning => 1,
            Severity::Error => 2,
        }
    }

    /// Whether `self` is at least as severe as `other`.
    pub fn at_least(self, other: Severity) -> (r: bool)
        ensures
            r == (self.rank() >= other.rank()),
    {
        match (self, other) {
            (_, Severity::Info) => true,
            (Severity::Info, _) => false,
            (_, Severity::Warning) => true,
            (Severity::Warning, Severity::Error) => false,
            (Severity::Error, Severity::Error) => true,
        }
    }

    /// The lowercase name of the severity, as config files and reports spell it.
    pub open spec fn spec_name(self) -> Seq<char> {
        match self {
            Severity::Info => "info"@,
            Severity::Warning => "warning"@,
            Severity::Error => "error"@,
        }
    }

    /// The lowercase name of the severity (what `Display` would show).
    pub fn as_str(&self) -> (r: &'static str)
        ensures
            r@ == self.spec_name(),
    {
        match self {
            Severity::Info => "info",
            Severity::Warning => "warning",
            Severity::Error => "error",
        }
    }
}

/// A source location for a diagnostic or fix: 1-based lines and 1-based columns counted in
/// characters. The end is exclusive; a zero-width range is an insertion point.
#[derive(Debug, Clone, Copy, PartialEq, Eq, Structural, Hash)]
pub struct Range {
    pub start_line: usize,
    pub start_column: usize,
    pub end_line: usize,
    pub end_column: usize,
}

impl Range {
    /// A range confined to a single line, from `start_column` to `end_column`.
    pub fn single_line(line: usize, start_column: usize, end_column: usize) -> (r: Self)
        ensures
            r == (Range { start_line: line, start_column, end_line: line, end_column }),
    {
        Range { start_line: line, start_column, end_line: line, end_column }
    }

    /// A zero-width range at `line`, `column`: an insertion point rather than a span.
    pub fn at(line: usize, column: usize) -> (r: Self)
        ensures
            r == (Range { start_line: line, start_column: column, end_line: line, end_column: column }),
    {
        Self::single_line(line, column, column)
    }
}

/// A machine-applicable rewrite: replace the source spanned by `range` with `replacement`.
/// A zero-width `range` is a pure insertion.
#[derive(Debug, Clone, PartialEq)]
pub struct Fix {
    pub range: Range,
    pub replacement: String,
}

impl Fix {
    pub fn new(range: Range, replacement: &str) -> (r: Self)
        ensures
            r.range == range,
            r.replacement@ == replacement@,
    {
        Fix { range, replacement: replacement.to_owned() }
    }
}

/// What a diagnostic says, as values: its rule, its text, its severity, where it is, and the
/// span and replacement text of its fix.
pub struct DiagView {
    pub rule: RuleId,
    pub text: Seq<char>,
    pub severity: Severity,
    pub range: Option<Range>,
    pub fix: Option<(Range, Seq<char>)>,
}

/// The replacement a fix makes, as values.
pub open spec fn fix_view(f: Option<Fix>) -> Option<(Range, Seq<char>)> {
    match f {
        Some(x) => Some((x.range, x.replacement@)),
        None => None,
    }
}

impl View for Diagnostic {
    type V = DiagView;

    open spec fn view(&self) -> DiagView {
        DiagView {
            rule: self.message.spec_rule_id(),
            text: self.message.spec_text(),
            severity: self.severity,
            range: self.range,
            fix: fix_view(self.fix),
        }
    }
}

/// The views of a sequence of diagnostics.
pub open spec fn diag_views(v: Seq<Diagnostic>) -> Seq<DiagView> {
    v.map_values(|d: Diagnostic| d@)
}

/// A lint finding produced by a built-in rule.
#[derive(Debug, Clone, PartialEq)]
pub struct Diagnostic {
    pub message: LintMessage,
    pub severity: Severity,
    /// Source location of the finding, if the offending node carried position info.
    pub range: Option<Range>,
    pub fix: Option<Fix>,
}

impl Diagnostic {
    pub fn new(message: LintMessage, severity: Severity) -> (r: Self)
        ensures
            r.message == message,
            r.severity == severity,
            r.range is None,
            r.fix is None,
    {
        Diagnostic { message, severity, range: None, fix: None }
    }

    pub fn with_range(self, range: Range) -> (r: Self)
        ensures
            r.message == self.message,
            r.severity == self.severity,
            r.range == Some(range),
            r.fix == self.fix,
    {
        let mut d = self;
        d.range = Some(range);
        d
    }

    pub fn with_fix(self, fix: Fix) -> (r: Self)
        ensures
            r.message == self.message,
            r.severity == self.severity,
            r.range == self.range,
            r.fix == Some(fix),
    {
        let mut d = self;
        d.fix = Some(fix);
        d
    }

    /// The rule that produced this diagnostic.
    pub fn rule_id(&self) -> (r: RuleId)
        ensures
            r == self.message.spec_rule_id(),
    {
        self.message.rule_id()
    }

    /// Human-readable diagnostic text.
    pub fn text(&self) -> (r: String)
        ensures
            r@ == self.message.spec_text(),
    {
        self.message.text()
    }

    /// Suggested action for the user, if any.
    pub fn help(&self) -> (r: Option<String>)
        ensures
            r matches Some(h) && h@ == self.message.spec_help(),
    {
        self.message.help()
    }
}

/// The rules of `ids` that this library carries, in order.
pub open spec fn carried(ids: Seq<RuleId>) -> Seq<RuleId>
    decreases ids.len(),
{
    if ids.len() == 0 {
        Seq::empty()
    } else {
        let r = carried(ids.drop_last());
        if rules::spec_implemented(ids.last()) {
            r.push(ids.last())
        } else {
            r
        }
    }
}

/// What rule `id` contributes to a lint run: nothing when the configuration disables it,
/// otherwise its diagnostics at the configured (or its default) severity.
pub open spec fn rule_output(id: RuleId, doc: Document, source: Seq<char>, config: LintConfig) -> Seq<
    DiagView,
> {
    if setting_enables(config.spec_setting(id)) {
        all_at_severity(
            spec_check(id, doc, source, config),
            setting_severity(config.spec_setting(id), spec_default_severity(id)),
        )
    } else {
        Seq::empty()
    }
}

pub open spec fn rule_output_each(
    rules: Seq<RuleId>,
    doc: Document,
    source: Seq<char>,
    config: LintConfig,
) -> spec_fn(int) -> Seq<DiagView> {
    |i: int| rule_output(rules[i], doc, source, config)
}

/// A lint run: every rule's output, in rule order, then stably sorted by position.
pub open spec fn spec_run(
    rules: Seq<RuleId>,
    doc: Document,
    source: Seq<char>,
    config: LintConfig,
) -> Seq<DiagView> {
    sort_views(concat_upto(rules.len() as int, rule_output_each(rules, doc, source, config)))
}

/// Runs a set of rules against a parsed document.
pub struct Linter {
    rule_set: Vec<RuleId>,
}

impl Linter {
    /// The rules this linter runs, in order.
    pub closed spec fn rules(&self) -> Seq<RuleId> {
        self.rule_set@
    }

    /// A linter with every rule this library carries, in the order of `RuleId::ALL`.
    pub fn with_default_rules() -> (r: Self)
        ensures
            r.rules() == carried(spec_all_rule_ids()),
    {
        let all = message::all_rule_ids();
        let mut rule_set: Vec<RuleId> = Vec::new();
        let mut i: usize = 0;
        while i < all.len()
            invariant
                i <= all@.len(),
                all@ == spec_all_rule_ids(),
                rule_set@ == carried(all@.take(i as int)),
            decreases all@.len() - i,
        {
            proof {
                assert(all@.take(i + 1).drop_last() =~= all@.take(i as int));
            }
            if rules::implemented(all[i]) {
                rule_set.push(all[i]);
            }
            i = i + 1;
        }
        proof {
            assert(all@.take(all@.len() as int) =~= all@);
        }
        Linter { rule_set }
    }

    /// Lints a parsed document, returning its diagnostics sorted by source position.
    ///
    /// `source` is the text `doc` was parsed from: some rules (whitespace, line length, exact
    /// heading syntax) read it because the nodes alone do not preserve it.
    pub fn run(&self, doc: &Document, source: &str, config: &LintConfig) -> (r: Vec<Diagnostic>)
        requires
            source@.len() < usize::MAX,
        ensures
            diag_views(r@) == spec_run(self.rules(), *doc, source@, *config),
    {
        let mut all: Vec<Diagnostic> = Vec::new();
        let mut i: usize = 0;
        proof {
            assert(diag_views(all@) =~= Seq::<DiagView>::empty());
        }
        while i < self.rule_set.len()
            invariant
                i <= self.rule_set@.len(),
                source@.len() < usize::MAX,
                diag_views(all@) == concat_upto(
                    i as int,
                    rule_output_each(self.rule_set@, *doc, source@, *config),
                ),
            decreases self.rule_set@.len() - i,
        {
            let id = self.rule_set[i];
            let ghost before = diag_views(all@);
            if config.is_rule_enabled(id) {
                let severity = config.severity_for(id, rules::default_severity(id));
                let found = rules::check_rule(id, doc, source, config);
                let found = rules::set_severity(found, severity);
                rules::append_all(&mut all, found);
            } else {
                proof {
                    assert(diag_views(all@) =~= before + Seq::<DiagView>::empty());
                }
            }
            i = i + 1;
        }
        rules::sort_by_position(all)
    }
}

impl Default for Linter {
    /// A linter that runs no rules.
    fn default() -> (r: Self)
        ensures
            r.rules() == Seq::<RuleId>::empty(),
    {
        Linter { rule_set: Vec::new() }
    }
}

} // verus!
