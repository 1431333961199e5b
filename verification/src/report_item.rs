//! Built-in rule diagnostics and custom rule diagnostics in one shape, so that callers can
//! report both side by side.
//!
//! A built-in [`Diagnostic`]'s rule is the closed [`crate::RuleId`] enum; a custom rule's id is
//! an arbitrary string, so a [`CustomDiagnostic`] is a separate type. [`lint`] runs both kinds,
//! merges them by position, and drops what the document's inline disable comments suppress.
use crate::custom_rules::{from_some_rule, CustomDiagnostic, CustomRuleError};
use crate::disable_comments::{line_suppressed, scan};
use crate::doc::Document;
use crate::message::NodeSelector;
use crate::rules::key_le;
use crate::{diag_views, fix_view, spec_run, DiagView, Diagnostic, Fix, LintConfig, Linter, Range, Severity};
use vstd::prelude::*;

verus! {

/// A finding of any kind: a built-in rule's, a custom rule's, or one restored from the cache.
pub enum ReportItem {
    Builtin(Diagnostic),
    Custom(CustomDiagnostic),
    Cached(CachedDiagnostic),
}

/// A finding as the cache keeps it: what a report shows of it, whatever rule made it.
#[derive(Debug, Clone, PartialEq)]
pub struct CachedDiagnostic {
    pub rule_id: String,
    pub severity: Severity,
    pub message: String,
    pub help: Option<String>,
    pub range: Option<Range>,
    pub fix: Option<Fix>,
}

/// A cached finding as a report item.
pub open spec fn cached_view(d: CachedDiagnostic) -> ItemView {
    ItemView {
        rule: d.rule_id@,
        text: d.message@,
        severity: d.severity,
        range: d.range,
        fix: fix_view(d.fix),
    }
}

/// The help of an item: a built-in rule's, a cached finding's own, none for a custom rule.
pub open spec fn item_help(item: ReportItem) -> Option<Seq<char>> {
    match item {
        ReportItem::Builtin(d) => Some(d.message.spec_help()),
        ReportItem::Custom(_) => None,
        ReportItem::Cached(c) => match c.help {
            Some(h) => Some(h@),
            None => None,
        },
    }
}

/// The mq selector of an item: a built-in rule's, where it has one; none otherwise.
pub open spec fn item_selector(item: ReportItem) -> Option<NodeSelector> {
    match item {
        ReportItem::Builtin(d) => d.message.spec_rule_id().spec_selector(),
        _ => None,
    }
}

/// What a report item says, as values.
pub struct ItemView {
    pub rule: Seq<char>,
    pub text: Seq<char>,
    pub severity: Severity,
    pub range: Option<Range>,
    pub fix: Option<(Range, Seq<char>)>,
}

/// A built-in diagnostic as a report item.
pub open spec fn builtin_view(d: DiagView) -> ItemView {
    ItemView {
        rule: d.rule.spec_name(),
        text: d.text,
        severity: d.severity,
        range: d.range,
        fix: d.fix,
    }
}

/// A custom diagnostic as a report item.
pub open spec fn custom_view(d: CustomDiagnostic) -> ItemView {
    ItemView {
        rule: d.rule_id@,
        text: d.message@,
        severity: d.severity,
        range: d.range,
        fix: fix_view(d.fix),
    }
}

impl View for ReportItem {
    type V = ItemView;

    open spec fn view(&self) -> ItemView {
        match self {
            ReportItem::Builtin(d) => builtin_view(d@),
            ReportItem::Custom(d) => custom_view(*d),
            ReportItem::Cached(d) => cached_view(*d),
        }
    }
}

pub open spec fn item_views(v: Seq<ReportItem>) -> Seq<ItemView> {
    v.map_values(|i: ReportItem| i@)
}

impl ReportItem {
    pub fn severity(&self) -> (r: Severity)
        ensures
            r == self@.severity,
    {
        match self {
            ReportItem::Builtin(d) => d.severity,
            ReportItem::Custom(d) => d.severity,
            ReportItem::Cached(d) => d.severity,
        }
    }

    pub fn range(&self) -> (r: Option<Range>)
        ensures
            r == self@.range,
    {
        match self {
            ReportItem::Builtin(d) => d.range,
            ReportItem::Custom(d) => d.range,
            ReportItem::Cached(d) => d.range,
        }
    }

    /// The rule id: a built-in rule's `snake_case` name, or a custom rule's configured `id`.
    pub fn rule_id(&self) -> (r: &str)
        ensures
            r@ == self@.rule,
    {
        match self {
            ReportItem::Builtin(d) => d.message.rule_id().as_str(),
            ReportItem::Custom(d) => d.rule_id.as_str(),
            ReportItem::Cached(d) => d.rule_id.as_str(),
        }
    }

    pub fn text(&self) -> (r: String)
        ensures
            r@ == self@.text,
    {
        match self {
            ReportItem::Builtin(d) => d.text(),
            ReportItem::Custom(d) => d.message.clone(),
            ReportItem::Cached(d) => d.message.clone(),
        }
    }

    /// Suggested action for the user: a built-in rule's help, a cached finding's own; none for
    /// a custom rule.
    pub fn help(&self) -> (r: Option<String>)
        ensures
            match r {
                Some(h) => item_help(*self) == Some(h@),
                None => item_help(*self) is None,
            },
    {
        match self {
            ReportItem::Builtin(d) => d.help(),
            ReportItem::Custom(_) => None,
            ReportItem::Cached(d) => match &d.help {
                Some(h) => Some(h.clone()),
                None => None,
            },
        }
    }

    /// The mq selector a built-in rule corresponds to; none for a rule with no single
    /// selector, nor for a custom rule (its query is whatever the user wrote) or a cached
    /// finding.
    pub fn selector(&self) -> (r: Option<NodeSelector>)
        ensures
            r == item_selector(*self),
    {
        match self {
            ReportItem::Builtin(d) => d.message.rule_id().selector(),
            _ => None,
        }
    }

    /// A machine-applicable rewrite, if this finding has one.
    pub fn fix(&self) -> (r: Option<&Fix>)
        ensures
            fix_view(
                match r {
                    Some(f) => Some(*f),
                    None => None,
                },
            ) == self@.fix,
    {
        match self {
            ReportItem::Builtin(d) => match &d.fix {
                Some(f) => Some(f),
                None => None,
            },
            ReportItem::Custom(d) => match &d.fix {
                Some(f) => Some(f),
                None => None,
            },
            ReportItem::Cached(d) => match &d.fix {
                Some(f) => Some(f),
                None => None,
            },
        }
    }
}

/// The number of leading items of `sorted` positioned no later than `r`.
pub open spec fn item_insert_pos(sorted: Seq<ItemView>, r: Option<Range>) -> nat
    decreases sorted.len(),
{
    if sorted.len() > 0 && key_le(sorted[0].range, r) {
        1 + item_insert_pos(sorted.drop_first(), r)
    } else {
        0
    }
}

/// `vs` stably sorted by position (start line, then start column, an unknown position first).
pub open spec fn sort_items(vs: Seq<ItemView>) -> Seq<ItemView>
    decreases vs.len(),
{
    if vs.len() == 0 {
        vs
    } else {
        let o = sort_items(vs.drop_last());
        o.insert(item_insert_pos(o, vs.last().range) as int, vs.last())
    }
}

proof fn lemma_sort_items_len(vs: Seq<ItemView>)
    ensures
        sort_items(vs).len() == vs.len(),
    decreases vs.len(),
{
    if vs.len() > 0 {
        lemma_sort_items_len(vs.drop_last());
        lemma_item_insert_pos_bound(sort_items(vs.drop_last()), vs.last().range);
    }
}

proof fn lemma_item_insert_pos_bound(sorted: Seq<ItemView>, r: Option<Range>)
    ensures
        item_insert_pos(sorted, r) <= sorted.len(),
    decreases sorted.len(),
{
    if sorted.len() > 0 && key_le(sorted[0].range, r) {
        lemma_item_insert_pos_bound(sorted.drop_first(), r);
    }
}

proof fn lemma_item_insert_pos_is(sorted: Seq<ItemView>, r: Option<Range>, p: int)
    requires
        0 <= p <= sorted.len(),
        forall|j: int| 0 <= j < p ==> key_le((#[trigger] sorted[j]).range, r),
        p == sorted.len() || !key_le(sorted[p].range, r),
    ensures
        item_insert_pos(sorted, r) == p,
    decreases p,
{
    if p > 0 {
        let t = sorted.drop_first();
        assert forall|j: int| 0 <= j < p - 1 implies key_le((#[trigger] t[j]).range, r) by {
            assert(t[j] == sorted[j + 1]);
        }
        if p < sorted.len() {
            assert(t[p - 1] == sorted[p]);
        }
        lemma_item_insert_pos_is(t, r, p - 1);
    }
}

/// Sorts report items stably by position.
fn sort_report_items(items: Vec<ReportItem>) -> (r: Vec<ReportItem>)
    ensures
        item_views(r@) == sort_items(item_views(items@)),
{
    let mut items = items;
    let ghost orig = items@;
    let total = items.len();
    let mut out: Vec<ReportItem> = Vec::new();
    let mut k: usize = 0;
    proof {
        assert(item_views(orig.take(0)) =~= Seq::<ItemView>::empty());
    }
    while items.len() > 0
        invariant
            k <= orig.len(),
            orig.len() <= usize::MAX,
            items@ == orig.skip(k as int),
            item_views(out@) == sort_items(item_views(orig.take(k as int))),
        decreases items@.len(),
    {
        let d = items.remove(0);
        proof {
            assert(orig.skip(k as int)[0] == orig[k as int]);
            assert(orig.skip(k as int).remove(0) =~= orig.skip(k + 1));
            lemma_sort_items_len(item_views(orig.take(k as int)));
        }
        let key = d.range();
        let mut p: usize = 0;
        while p < out.len() && crate::rules::position_le(out[p].range(), key)
            invariant
                p <= out@.len(),
                key == d@.range,
                forall|j: int| 0 <= j < p ==> key_le((#[trigger] item_views(out@)[j]).range, key),
            decreases out@.len() - p,
        {
            p = p + 1;
        }
        let ghost prev = item_views(out@);
        proof {
            lemma_item_insert_pos_is(prev, d@.range, p as int);
            assert(item_views(orig.take(k + 1)).drop_last() =~= item_views(orig.take(k as int)));
            assert(item_views(orig.take(k + 1)).last() == d@);
        }
        out.insert(p, d);
        proof {
            assert(item_views(out@) =~= prev.insert(p as int, d@));
        }
        k = k + 1;
    }
    proof {
        assert(orig.take(k as int) =~= orig);
    }
    out
}

/// The items of `vs` that `source`'s inline disable comments do not suppress: an item is
/// suppressed when a comment disables its rule on its start line.
pub open spec fn unsuppressed(vs: Seq<ItemView>, source: Seq<char>) -> Seq<ItemView>
    decreases vs.len(),
{
    if vs.len() == 0 {
        vs
    } else {
        let r = unsuppressed(vs.drop_last(), source);
        let v = vs.last();
        if v.range matches Some(p) && line_suppressed(source, v.rule, p.start_line as int) {
            r
        } else {
            r.push(v)
        }
    }
}

/// Built-in findings followed by custom ones, sorted by position, less those the inline
/// disable comments of `source` suppress.
pub open spec fn spec_merge(
    builtin: Seq<DiagView>,
    custom: Seq<CustomDiagnostic>,
    source: Seq<char>,
) -> Seq<ItemView> {
    unsuppressed(
        sort_items(builtin.map_values(|d: DiagView| builtin_view(d)) + custom.map_values(
            |d: CustomDiagnostic| custom_view(d),
        )),
        source,
    )
}

/// Merges built-in and custom findings into one position-sorted list, dropping those the
/// document's inline disable comments suppress.
pub fn merge_findings(builtin: Vec<Diagnostic>, custom: Vec<CustomDiagnostic>, source: &str) -> (r:
    Vec<ReportItem>)
    ensures
        item_views(r@) == spec_merge(diag_views(builtin@), custom@, source@),
{
    let mut builtin = builtin;
    let mut custom = custom;
    let ghost b0 = builtin@;
    let ghost c0 = custom@;
    let mut items: Vec<ReportItem> = Vec::new();
    let mut i: usize = 0;
    let nb = builtin.len();
    while builtin.len() > 0
        invariant
            i <= b0.len(),
            b0.len() <= usize::MAX,
            builtin@ == b0.skip(i as int),
            item_views(items@) == diag_views(b0.take(i as int)).map_values(
                |d: DiagView| builtin_view(d),
            ),
        decreases builtin@.len(),
    {
        let d = builtin.remove(0);
        proof {
            assert(b0.skip(i as int)[0] == b0[i as int]);
            assert(b0.skip(i as int).remove(0) =~= b0.skip(i + 1));
        }
        let ghost before = item_views(items@);
        let ghost dv = d@;
        items.push(ReportItem::Builtin(d));
        proof {
            assert(item_views(items@) =~= before.push(builtin_view(dv)));
            assert(diag_views(b0.take(i + 1)) =~= diag_views(b0.take(i as int)).push(dv));
            assert(item_views(items@) =~= diag_views(b0.take(i + 1)).map_values(
                |d: DiagView| builtin_view(d),
            ));
        }
        i = i + 1;
    }
    proof {
        assert(b0.take(i as int) =~= b0);
    }
    let ghost bv = item_views(items@);
    let mut j: usize = 0;
    let nc = custom.len();
    while custom.len() > 0
        invariant
            j <= c0.len(),
            c0.len() <= usize::MAX,
            custom@ == c0.skip(j as int),
            item_views(items@) == bv + c0.take(j as int).map_values(
                |d: CustomDiagnostic| custom_view(d),
            ),
        decreases custom@.len(),
    {
        let d = custom.remove(0);
        proof {
            assert(c0.skip(j as int)[0] == c0[j as int]);
            assert(c0.skip(j as int).remove(0) =~= c0.skip(j + 1));
        }
        let ghost before = item_views(items@);
        let ghost dc = d;
        items.push(ReportItem::Custom(d));
        proof {
            assert(item_views(items@) =~= before.push(custom_view(dc)));
            assert(c0.take(j + 1) =~= c0.take(j as int).push(dc));
            assert(item_views(items@) =~= bv + c0.take(j + 1).map_values(
                |d: CustomDiagnostic| custom_view(d),
            ));
        }
        j = j + 1;
    }
    proof {
        assert(c0.take(j as int) =~= c0);
    }
    let sorted = sort_report_items(items);
    let disabled = scan(source);
    let mut sorted = sorted;
    let ghost s0 = sorted@;
    let mut out: Vec<ReportItem> = Vec::new();
    let mut k: usize = 0;
    let ns = sorted.len();
    proof {
        assert(item_views(s0.take(0)) =~= Seq::<ItemView>::empty());
    }
    while sorted.len() > 0
        invariant
            k <= s0.len(),
            s0.len() <= usize::MAX,
            sorted@ == s0.skip(k as int),
            disabled.source() == source@,
            item_views(out@) == unsuppressed(item_views(s0.take(k as int)), source@),
        decreases sorted@.len(),
    {
        let item = sorted.remove(0);
        proof {
            assert(s0.skip(k as int)[0] == s0[k as int]);
            assert(s0.skip(k as int).remove(0) =~= s0.skip(k + 1));
            assert(item_views(s0.take(k + 1)).drop_last() =~= item_views(s0.take(k as int)));
            assert(item_views(s0.take(k + 1)).last() == item@);
        }
        let suppressed = match item.range() {
            Some(p) => disabled.suppresses(item.rule_id(), p.start_line),
            None => false,
        };
        if !suppressed {
            let ghost before = item_views(out@);
            out.push(item);
            proof {
                assert(item_views(out@) =~= before.push(item@));
            }
        }
        k = k + 1;
    }
    proof {
        assert(s0.take(k as int) =~= s0);
    }
    out
}

/// Runs the built-in rules of `linter` on `doc` and the custom rules of `config` on
/// `markdown` (both parsed from `source`), merging their findings into one position-sorted
/// list less what the inline disable comments suppress; or the first custom rule's error.
pub fn lint(
    doc: &Document,
    markdown: &mq_markdown::Markdown,
    source: &str,
    linter: &Linter,
    config: &LintConfig,
) -> (r: Result<Vec<ReportItem>, CustomRuleError>)
    requires
        source@.len() < usize::MAX,
    ensures
        r matches Ok(items) ==> exists|custom: Seq<CustomDiagnostic>|
            (forall|i: int|
                0 <= i < custom.len() ==> from_some_rule(config.custom_rules@, #[trigger] custom[i]))
                && item_views(items@) == spec_merge(
                spec_run(linter.rules(), *doc, source@, *config),
                custom,
                source@,
            ),
        r matches Err(e) ==> exists|j: int|
            0 <= j < config.custom_rules@.len() && (#[trigger] config.custom_rules@[j]).id@
                == e.rule_id@,
        config.custom_rules@.len() == 0 ==> r is Ok,
{
    let builtin = linter.run(doc, source, config);
    let custom = crate::custom_rules::run(&config.custom_rules, markdown)?;
    let ghost cv = custom@;
    let items = merge_findings(builtin, custom, source);
    proof {
        assert(item_views(items@) == spec_merge(
            spec_run(linter.rules(), *doc, source@, *config),
            cv,
            source@,
        ));
    }
    Ok(items)
}

} // verus!
